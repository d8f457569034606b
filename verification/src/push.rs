//! The push reply: what a client is told to configure.

use vstd::prelude::*;
use vstd::string::StringSliceAdditionalSpecFns;
use vstd::utf8::encode_utf8;

use crate::addr::{
    ipv4_text, ipv6_text, is_ipv4_text, parse_ipv4, push_ip, push_ipv4, push_ipv6, IpAddress,
};
use crate::codec::to_vec;
use crate::config::ServerConfig;
use crate::text::{
    chars_of, copy_text, decimal, parse_u32, push_decimal, push_text, same_text, u32_of,
};

verus! {

/// The contents of a list of strings.
pub open spec fn texts(v: Seq<String>) -> Seq<Seq<char>> {
    v.map_values(|s: String| s@)
}

/// The netmask that is pushed: the tunnel's, or that of a /24 where the
/// tunnel's is not IPv4.
pub open spec fn netmask(mask: IpAddress) -> u32 {
    match mask {
        IpAddress::V4(m) => m,
        IpAddress::V6(_) => 0xffff_ff00,
    }
}

/// The netmask of a prefix length: that many one bits, from the top.
pub open spec fn mask_of(bits: u32) -> u32 {
    if bits == 0 {
        0
    } else {
        0xffff_ffffu32 << ((32 - bits) as u32)
    }
}

/// The network and the netmask of a CIDR: the IPv4 address before the first
/// slash, and the mask of the prefix length behind it, which is 32 at most.
pub open spec fn route_of(cidr: Seq<char>) -> Option<(Seq<char>, u32)> {
    match cidr.index_of_first('/') {
        None => None,
        Some(i) => match u32_of(cidr.skip(i + 1)) {
            Some(bits) if bits <= 32 && is_ipv4_text(cidr.take(i)) => Some(
                (cidr.take(i), mask_of(bits)),
            ),
            _ => None,
        },
    }
}

/// The CIDR of everything.
pub open spec fn is_default_route(cidr: Seq<char>) -> bool {
    cidr == "0.0.0.0/0"@
}

/// The directive for one CIDR: none for the CIDR of everything, which is
/// pushed in another form, and none for what is no CIDR.
pub open spec fn route_directive(cidr: Seq<char>) -> Seq<char> {
    if is_default_route(cidr) {
        Seq::empty()
    } else {
        match route_of(cidr) {
            Some((net, mask)) => ",route "@ + net + " "@ + ipv4_text(mask),
            None => Seq::empty(),
        }
    }
}

/// The directives for several CIDRs.
pub open spec fn route_directives(cidrs: Seq<Seq<char>>) -> Seq<char>
    decreases cidrs.len(),
{
    if cidrs.len() == 0 {
        Seq::empty()
    } else {
        route_directives(cidrs.drop_last()) + route_directive(cidrs.last())
    }
}

/// `prefix` in front of each of several texts.
pub open spec fn prefixed(prefix: Seq<char>, items: Seq<Seq<char>>) -> Seq<char>
    decreases items.len(),
{
    if items.len() == 0 {
        Seq::empty()
    } else {
        prefixed(prefix, items.drop_last()) + prefix + items.last()
    }
}

/// The directive for the client's IPv6 address, if the tunnel has IPv6.
pub open spec fn ifconfig_v6(server: Option<IpAddress>, prefix: u8, client: Option<u128>) -> Seq<
    char,
> {
    match (server, client) {
        (Some(IpAddress::V6(server)), Some(client)) => ",ifconfig-ipv6 "@ + ipv6_text(client) + "/"@
            + decimal(prefix as nat) + " "@ + ipv6_text(server),
        _ => Seq::empty(),
    }
}

/// Everything, as two routes that leave the client's own default route alone.
pub open spec fn half_routes(wanted: bool) -> Seq<char> {
    if wanted {
        ",route 0.0.0.0 128.0.0.0"@ + ",route 128.0.0.0 128.0.0.0"@
    } else {
        Seq::empty()
    }
}

/// The addresses that a client is told.
pub open spec fn reply_head(cfg: ServerConfig, ip: u32, ip6: Option<u128>) -> Seq<char> {
    "PUSH_REPLY"@ + ",ifconfig "@ + ipv4_text(ip) + " "@ + ipv4_text(netmask(cfg.tun_netmask))
        + ",topology subnet"@ + ",route-gateway "@ + cfg.tun_ip.text() + ifconfig_v6(
        cfg.tun_ip6,
        cfg.tun_prefix6,
        ip6,
    )
}

/// The routes and name servers that a client is told.
pub open spec fn reply_routes(cfg: ServerConfig, extra: Seq<String>) -> Seq<char> {
    let routes = texts(cfg.push_routes@ + extra);
    route_directives(routes) + half_routes(routes.contains("0.0.0.0/0"@)) + prefixed(
        ",route-ipv6 "@,
        texts(cfg.push_routes_v6@),
    ) + prefixed(",dhcp-option DNS "@, cfg.push_dns@.map_values(|ip: IpAddress| ip.text()))
}

/// The rest of what a client is told.
pub open spec fn reply_tail(cfg: ServerConfig, peer_id: u32) -> Seq<char> {
    ",ping "@ + decimal(cfg.keepalive_ping as nat) + ",ping-restart "@ + decimal(
        cfg.keepalive_timeout as nat,
    ) + ",cipher AES-256-GCM"@ + ",peer-id "@ + decimal(peer_id as nat)
}

/// The push reply, without its final NUL.
pub open spec fn reply_text(
    cfg: ServerConfig,
    ip: u32,
    ip6: Option<u128>,
    peer_id: u32,
    extra: Seq<String>,
) -> Seq<char> {
    reply_head(cfg, ip, ip6) + reply_routes(cfg, extra) + reply_tail(cfg, peer_id)
}

/// The netmask that is pushed.
pub fn netmask_of(mask: IpAddress) -> (r: u32)
    ensures
        r == netmask(mask),
{
    match mask {
        IpAddress::V4(m) => m,
        IpAddress::V6(_) => 0xffff_ff00,
    }
}

/// The network and the netmask, as text, of a CIDR such as `10.0.0.0/8`;
/// `None` for anything else.
pub fn cidr_to_route(cidr: &str) -> (r: Option<(String, String)>)
    ensures
        match r {
            Some((net, mask)) => route_of(cidr@) matches Some((n, m)) && net@ == n && mask@
                == ipv4_text(m),
            None => route_of(cidr@) is None,
        },
{
    let v: Vec<char> = chars_of(cidr);
    let n: usize = v.len();
    let mut i: usize = 0;
    while i < n && v[i] != '/'
        invariant
            i <= n == v@.len(),
            v@ == cidr@,
            forall|j: int| 0 <= j < i ==> cidr@[j] != '/',
        decreases n - i,
    {
        i += 1;
    }
    proof {
        cidr@.index_of_first_ensures('/');
    }
    if i == n {
        return None;
    }
    assert(cidr@.contains(cidr@[i as int]));
    assert(cidr@.index_of_first('/') == Some(i as int));
    assert(cidr@.subrange(i + 1, n as int) =~= cidr@.skip(i + 1));
    assert(cidr@.subrange(0, i as int) =~= cidr@.take(i as int));
    match parse_u32(&v, i + 1, n) {
        None => None,
        Some(bits) => {
            let net: String = copy_text(cidr, 0, i);
            if bits > 32 || parse_ipv4(net.as_str()).is_none() {
                return None;
            }
            let mask: u32 = if bits == 0 {
                0
            } else {
                0xffff_ffffu32 << (32 - bits)
            };
            let mut text: String = String::new();
            push_ipv4(&mut text, mask);
            assert(text@ =~= ipv4_text(mask));
            Some((net, text))
        },
    }
}

/// Appends the directives for `routes`; whether the CIDR of everything is
/// among them.
fn push_routes(out: &mut String, routes: &Vec<String>) -> (everything: bool)
    ensures
        final(out)@ == old(out)@ + route_directives(texts(routes@)),
        everything == texts(routes@).contains("0.0.0.0/0"@),
{
    let ghost all = texts(routes@);
    let mut everything: bool = false;
    let mut i: usize = 0;
    assert(all.take(0) =~= Seq::<Seq<char>>::empty());
    assert(out@ =~= old(out)@ + route_directives(all.take(0)));
    while i < routes.len()
        invariant
            i <= routes@.len(),
            all == texts(routes@),
            out@ == old(out)@ + route_directives(all.take(i as int)),
            everything == all.take(i as int).contains("0.0.0.0/0"@),
        decreases routes@.len() - i,
    {
        let cidr = routes[i].as_str();
        let ghost before = out@;
        proof {
            let now = all.take(i + 1);
            assert(now.drop_last() =~= all.take(i as int));
            assert(now.last() == cidr@);
            lemma_contains_step(all, i as int, "0.0.0.0/0"@);
        }
        if same_text(cidr, "0.0.0.0/0") {
            everything = true;
            assert(out@ =~= before + route_directive(cidr@));
        } else if let Some((net, mask)) = cidr_to_route(cidr) {
            push_text(out, ",route ");
            push_text(out, net.as_str());
            push_text(out, " ");
            push_text(out, mask.as_str());
            assert(out@ =~= before + route_directive(cidr@));
        } else {
            assert(out@ =~= before + route_directive(cidr@));
        }
        i += 1;
        assert(out@ =~= old(out)@ + route_directives(all.take(i as int)));
    }
    assert(all.take(i as int) =~= all);
    everything
}

proof fn lemma_contains_step<A>(s: Seq<A>, i: int, x: A)
    requires
        0 <= i < s.len(),
    ensures
        s.take(i + 1).contains(x) <==> s.take(i).contains(x) || s[i] == x,
{
    let a = s.take(i);
    let b = s.take(i + 1);
    if b.contains(x) {
        let k = choose|k: int| 0 <= k < b.len() && b[k] == x;
        if k < i {
            assert(a[k] == x);
        }
    }
    if a.contains(x) {
        let k = choose|k: int| 0 <= k < a.len() && a[k] == x;
        assert(b[k] == x);
    }
    assert(b[i] == s[i]);
}

/// All of `a`, then all of `b`.
fn concat(a: &Vec<String>, b: &[String]) -> (r: Vec<String>)
    ensures
        texts(r@) == texts(a@ + b@),
{
    let mut r: Vec<String> = Vec::new();
    let mut i: usize = 0;
    while i < a.len()
        invariant
            i <= a@.len(),
            r@.len() == i,
            forall|j: int| 0 <= j < i ==> (#[trigger] r@[j])@ == a@[j]@,
        decreases a@.len() - i,
    {
        r.push(a[i].as_str().to_string());
        i += 1;
    }
    let mut k: usize = 0;
    while k < b.len()
        invariant
            k <= b@.len(),
            r@.len() == a@.len() + k,
            forall|j: int| 0 <= j < a@.len() ==> (#[trigger] r@[j])@ == a@[j]@,
            forall|j: int| a@.len() <= j < r@.len() ==> (#[trigger] r@[j])@ == b@[j - a@.len()]@,
        decreases b@.len() - k,
    {
        r.push(b[k].as_str().to_string());
        k += 1;
    }
    assert(texts(r@) =~= texts(a@ + b@));
    r
}

/// Appends each of `items` with `prefix` in front.
fn push_prefixed(out: &mut String, prefix: &str, items: &Vec<String>)
    ensures
        final(out)@ == old(out)@ + prefixed(prefix@, texts(items@)),
{
    let ghost all = texts(items@);
    let mut i: usize = 0;
    assert(all.take(0) =~= Seq::<Seq<char>>::empty());
    assert(out@ =~= old(out)@ + prefixed(prefix@, all.take(0)));
    while i < items.len()
        invariant
            i <= items@.len(),
            all == texts(items@),
            out@ == old(out)@ + prefixed(prefix@, all.take(i as int)),
        decreases items@.len() - i,
    {
        proof {
            let now = all.take(i + 1);
            assert(now.drop_last() =~= all.take(i as int));
            assert(now.last() == items@[i as int]@);
        }
        push_text(out, prefix);
        push_text(out, items[i].as_str());
        i += 1;
        assert(out@ =~= old(out)@ + prefixed(prefix@, all.take(i as int)));
    }
    assert(all.take(i as int) =~= all);
}

/// Appends each of `items` with `prefix` in front.
fn push_prefixed_ips(out: &mut String, prefix: &str, items: &Vec<IpAddress>)
    ensures
        final(out)@ == old(out)@ + prefixed(
            prefix@,
            items@.map_values(|ip: IpAddress| ip.text()),
        ),
{
    let ghost all = items@.map_values(|ip: IpAddress| ip.text());
    let mut i: usize = 0;
    assert(all.take(0) =~= Seq::<Seq<char>>::empty());
    assert(out@ =~= old(out)@ + prefixed(prefix@, all.take(0)));
    while i < items.len()
        invariant
            i <= items@.len(),
            all == items@.map_values(|ip: IpAddress| ip.text()),
            out@ == old(out)@ + prefixed(prefix@, all.take(i as int)),
        decreases items@.len() - i,
    {
        proof {
            let now = all.take(i + 1);
            assert(now.drop_last() =~= all.take(i as int));
            assert(now.last() == items@[i as int].text());
        }
        push_text(out, prefix);
        push_ip(out, items[i]);
        i += 1;
        assert(out@ =~= old(out)@ + prefixed(prefix@, all.take(i as int)));
    }
    assert(all.take(i as int) =~= all);
}

/// Appends the addresses that a client is told.
fn push_head(s: &mut String, cfg: &ServerConfig, client_ip: u32, client_ip6: Option<u128>)
    ensures
        final(s)@ == old(s)@ + reply_head(*cfg, client_ip, client_ip6),
{
    push_text(s, "PUSH_REPLY");
    push_text(s, ",ifconfig ");
    push_ipv4(s, client_ip);
    push_text(s, " ");
    push_ipv4(s, netmask_of(cfg.tun_netmask));
    push_text(s, ",topology subnet");
    push_text(s, ",route-gateway ");
    push_ip(s, cfg.tun_ip);
    if let (Some(IpAddress::V6(server)), Some(client)) = (cfg.tun_ip6, client_ip6) {
        push_text(s, ",ifconfig-ipv6 ");
        push_ipv6(s, client);
        push_text(s, "/");
        push_decimal(s, cfg.tun_prefix6 as u64);
        push_text(s, " ");
        push_ipv6(s, server);
    }
    assert(s@ =~= old(s)@ + reply_head(*cfg, client_ip, client_ip6));
}

/// Appends the routes and name servers that a client is told.
fn push_middle(s: &mut String, cfg: &ServerConfig, extra_routes: &[String])
    ensures
        final(s)@ == old(s)@ + reply_routes(*cfg, extra_routes@),
{
    let routes: Vec<String> = concat(&cfg.push_routes, extra_routes);
    if push_routes(s, &routes) {
        push_text(s, ",route 0.0.0.0 128.0.0.0");
        push_text(s, ",route 128.0.0.0 128.0.0.0");
    }
    push_prefixed(s, ",route-ipv6 ", &cfg.push_routes_v6);
    push_prefixed_ips(s, ",dhcp-option DNS ", &cfg.push_dns);
    assert(s@ =~= old(s)@ + reply_routes(*cfg, extra_routes@));
}

/// Builds the answer to `PUSH_REQUEST`: directives with commas between them
/// and a NUL at the end. `extra_routes` come after the routes of the server.
pub fn build_push_reply(
    cfg: &ServerConfig,
    client_ip: u32,
    client_ip6: Option<u128>,
    peer_id: u32,
    extra_routes: &[String],
) -> (out: Vec<u8>)
    ensures
        out@ == encode_utf8(
            reply_text(*cfg, client_ip, client_ip6, peer_id, extra_routes@),
        ).push(0u8),
{
    let mut s: String = String::new();
    push_head(&mut s, cfg, client_ip, client_ip6);
    push_middle(&mut s, cfg, extra_routes);
    push_text(&mut s, ",ping ");
    push_decimal(&mut s, cfg.keepalive_ping as u64);
    push_text(&mut s, ",ping-restart ");
    push_decimal(&mut s, cfg.keepalive_timeout as u64);
    push_text(&mut s, ",cipher AES-256-GCM");
    push_text(&mut s, ",peer-id ");
    push_decimal(&mut s, peer_id as u64);
    assert(s@ =~= reply_text(*cfg, client_ip, client_ip6, peer_id, extra_routes@));
    let mut out: Vec<u8> = to_vec(s.as_str().as_bytes());
    out.push(0);
    out
}

/// The routes of a client are pushed after those of the server, each as it
/// would be alone.
pub proof fn law_routes_merge(a: Seq<Seq<char>>, b: Seq<Seq<char>>)
    ensures
        route_directives(a + b) == route_directives(a) + route_directives(b),
        half_routes((a + b).contains("0.0.0.0/0"@)) == half_routes(
            a.contains("0.0.0.0/0"@) || b.contains("0.0.0.0/0"@),
        ),
    decreases b.len(),
{
    let x = "0.0.0.0/0"@;
    let ab = a + b;
    if a.contains(x) {
        let k = choose|k: int| 0 <= k < a.len() && a[k] == x;
        assert(ab[k] == x);
    }
    if b.contains(x) {
        let k = choose|k: int| 0 <= k < b.len() && b[k] == x;
        assert(ab[a.len() + k] == x);
    }
    if ab.contains(x) {
        let k = choose|k: int| 0 <= k < ab.len() && ab[k] == x;
        if k < a.len() {
            assert(a[k] == x);
        } else {
            assert(b[k - a.len()] == x);
        }
    }
    if b.len() == 0 {
        assert(a + b =~= a);
        assert(route_directives(a) + route_directives(b) =~= route_directives(a));
    } else {
        law_routes_merge(a, b.drop_last());
        assert((a + b).drop_last() =~= a + b.drop_last());
        assert((a + b).last() == b.last());
        assert(route_directives(a + b) =~= route_directives(a) + route_directives(b));
    }
}

/// The mask of a prefix length has that many one bits, at the top.
pub proof fn law_mask_bits(bits: u32, j: u32)
    requires
        bits <= 32,
        j < 32,
    ensures
        (mask_of(bits) >> j) & 1 == 1 <==> j >= 32 - bits,
{
    if bits == 0 {
        assert((0u32 >> j) & 1 == 0) by (bit_vector);
    } else {
        let k = (32 - bits) as u32;
        assert(k < 32 && j < 32 ==> (((0xffff_ffffu32 << k) >> j) & 1 == 1 <==> j >= k))
            by (bit_vector);
    }
}

/// A CIDR names the address in front of its slash, as it stands, and the mask
/// of the prefix length behind it: that many one bits at the top, and zeros
/// below. A prefix length above 32 makes it none.
pub proof fn law_cidr(ip: u32, bits: u32, j: u32)
    requires
        j < 32,
    ensures
        bits <= 32 ==> (route_of(ipv4_text(ip) + seq!['/'] + decimal(bits as nat)) matches Some((net, mask))
            && net == ipv4_text(ip) && ((mask >> j) & 1 == 1 <==> j >= 32 - bits)),
        bits > 32 ==> route_of(ipv4_text(ip) + seq!['/'] + decimal(bits as nat)) is None,
{
    let net = ipv4_text(ip);
    let s = net + seq!['/'] + decimal(bits as nat);
    let n = net.len() as int;
    crate::addr::lemma_ipv4_text_chars(ip);
    crate::text::law_decimal_round_trip(bits);
    assert(s[n] == '/');
    s.index_of_first_ensures('/');
    assert(s.contains('/'));
    let k = s.index_of_first('/')->0;
    if k < n {
        assert(s[k] == net[k]);
    }
    assert(s.take(n) =~= net);
    assert(s.skip(n + 1) =~= decimal(bits as nat));
    if bits <= 32 {
        law_mask_bits(bits, j);
    }
}

/// Nothing else is a route: there must be a slash, what is in front of the
/// first one must be an IPv4 address, and what is behind it a number of 32 at
/// most.
pub proof fn law_no_other_route(cidr: Seq<char>)
    ensures
        route_of(cidr) is Some <==> exists|i: int|
            0 <= i < cidr.len() && #[trigger] cidr[i] == '/' && (forall|j: int|
                0 <= j < i ==> #[trigger] cidr[j] != '/') && is_ipv4_text(cidr.take(i)) && (u32_of(
                cidr.skip(i + 1),
            ) matches Some(bits) && bits <= 32),
{
    cidr.index_of_first_ensures('/');
    if route_of(cidr) is Some {
        let i = cidr.index_of_first('/')->0;
        assert(cidr[i] == '/');
    }
    if exists|i: int|
        0 <= i < cidr.len() && #[trigger] cidr[i] == '/' && (forall|j: int|
            0 <= j < i ==> #[trigger] cidr[j] != '/') && is_ipv4_text(cidr.take(i)) && (u32_of(
            cidr.skip(i + 1),
        ) matches Some(bits) && bits <= 32) {
        let i = choose|i: int|
            0 <= i < cidr.len() && #[trigger] cidr[i] == '/' && (forall|j: int|
                0 <= j < i ==> #[trigger] cidr[j] != '/') && is_ipv4_text(cidr.take(i)) && (u32_of(
                cidr.skip(i + 1),
            ) matches Some(bits) && bits <= 32);
        assert(cidr.contains(cidr[i]));
        let k = cidr.index_of_first('/')->0;
        assert(cidr[k] == '/');
        assert(k == i);
    }
}

/// Routes are told one by one, in order: each as its network and mask; nothing
/// for the CIDR of everything, and nothing for what is no CIDR.
pub proof fn law_routes_one_by_one(cidrs: Seq<Seq<char>>, cidr: Seq<char>)
    ensures
        route_directives(Seq::empty()) == Seq::<char>::empty(),
        cidr != "0.0.0.0/0"@ ==> (route_of(cidr) matches Some((net, mask)) ==> route_directives(
            cidrs.push(cidr),
        ) == route_directives(cidrs) + ",route "@ + net + " "@ + ipv4_text(mask)),
        cidr == "0.0.0.0/0"@ || route_of(cidr) is None ==> route_directives(cidrs.push(cidr))
            == route_directives(cidrs),
{
    let all = cidrs.push(cidr);
    assert(all.drop_last() =~= cidrs);
    assert(all.last() == cidr);
    if cidr != "0.0.0.0/0"@ {
        if let Some((net, mask)) = route_of(cidr) {
            assert(route_directives(all) =~= route_directives(cidrs) + ",route "@ + net + " "@
                + ipv4_text(mask));
        }
    }
    if cidr == "0.0.0.0/0"@ || route_of(cidr) is None {
        assert(route_directives(all) =~= route_directives(cidrs));
    }
}

/// Other lists are told one by one too, each item behind its prefix.
pub proof fn law_items_one_by_one(prefix: Seq<char>, items: Seq<Seq<char>>, item: Seq<char>)
    ensures
        prefixed(prefix, Seq::empty()) == Seq::<char>::empty(),
        prefixed(prefix, items.push(item)) == prefixed(prefix, items) + prefix + item,
{
    assert(items.push(item).drop_last() =~= items);
}

/// Whether a part stands somewhere in a text.
pub open spec fn mentions(text: Seq<char>, part: Seq<char>) -> bool {
    exists|k: int|
        0 <= k <= text.len() - part.len() && #[trigger] text.subrange(
            k,
            k + part.len(),
        ) == part
}

/// A part in the middle of a text.
proof fn lemma_mentions(a: Seq<char>, part: Seq<char>, b: Seq<char>)
    ensures
        mentions(a + part + b, part),
{
    let k = a.len() as int;
    assert((a + part + b).subrange(k, k + part.len()) =~= part);
}

/// A part that a piece of a text mentions, the text mentions.
proof fn lemma_mentions_inner(a: Seq<char>, piece: Seq<char>, b: Seq<char>, part: Seq<char>)
    requires
        mentions(piece, part),
    ensures
        mentions(a + piece + b, part),
{
    let k = choose|k: int|
        0 <= k <= piece.len() - part.len() && #[trigger] piece.subrange(
            k,
            k + part.len(),
        ) == part;
    let m = a.len() + k;
    assert((a + piece + b).subrange(m, m + part.len()) =~= piece.subrange(k, k + part.len()));
}

/// Every route of a list is in its directives.
proof fn lemma_route_is_told(cidrs: Seq<Seq<char>>, i: int, net: Seq<char>, mask: u32)
    requires
        0 <= i < cidrs.len(),
        cidrs[i] != "0.0.0.0/0"@,
        route_of(cidrs[i]) == Some((net, mask)),
    ensures
        mentions(route_directives(cidrs), ",route "@ + net + " "@ + ipv4_text(mask)),
    decreases cidrs.len(),
{
    let d = ",route "@ + net + " "@ + ipv4_text(mask);
    let init = cidrs.drop_last();
    if i == cidrs.len() - 1 {
        lemma_mentions(route_directives(init), d, Seq::empty());
        assert(route_directives(init) + d + Seq::<char>::empty() =~= route_directives(cidrs));
    } else {
        assert(init[i] == cidrs[i]);
        lemma_route_is_told(init, i, net, mask);
        let last = route_directive(cidrs.last());
        lemma_mentions_inner(Seq::empty(), route_directives(init), last, d);
        assert(Seq::<char>::empty() + route_directives(init) + last =~= route_directives(cidrs));
    }
}

/// Every item of a list is in the text of it.
proof fn lemma_item_is_told(prefix: Seq<char>, items: Seq<Seq<char>>, i: int)
    requires
        0 <= i < items.len(),
    ensures
        mentions(prefixed(prefix, items), prefix + items[i]),
    decreases items.len(),
{
    let init = items.drop_last();
    let before = prefixed(prefix, init);
    let last = items.last();
    let d = prefix + items[i];
    assert(prefixed(prefix, items) == before + prefix + last);
    assert(before + prefix + last =~= before + (prefix + last) + Seq::<char>::empty());
    if i == items.len() - 1 {
        lemma_mentions(before, d, Seq::empty());
    } else {
        assert(init[i] == items[i]);
        lemma_item_is_told(prefix, init, i);
        lemma_mentions_inner(Seq::empty(), before, prefix + last, d);
        assert(Seq::<char>::empty() + before + (prefix + last) =~= before + prefix + last);
    }
}

/// A client is told every route: each of the server's and each of its own, by
/// its network and mask; everything, if either list has that, as two halves;
/// and no halves otherwise.
#[verifier::rlimit(30)]
pub proof fn law_every_route_is_told(
    cfg: ServerConfig,
    ip: u32,
    ip6: Option<u128>,
    peer_id: u32,
    extra: Seq<String>,
    i: int,
)
    ensures
        ({
            let reply = reply_text(cfg, ip, ip6, peer_id, extra);
            &&& 0 <= i < cfg.push_routes@.len() && cfg.push_routes@[i]@ != "0.0.0.0/0"@ ==> (
            route_of(cfg.push_routes@[i]@) matches Some((net, mask)) ==> mentions(
                reply,
                ",route "@ + net + " "@ + ipv4_text(mask),
            ))
            &&& 0 <= i < extra.len() && extra[i]@ != "0.0.0.0/0"@ ==> (route_of(extra[i]@) matches Some(
                (net, mask),
            ) ==> mentions(reply, ",route "@ + net + " "@ + ipv4_text(mask)))
            &&& 0 <= i < cfg.push_routes@.len() && cfg.push_routes@[i]@ == "0.0.0.0/0"@ ==> mentions(
                reply,
                ",route 0.0.0.0 128.0.0.0"@,
            ) && mentions(reply, ",route 128.0.0.0 128.0.0.0"@)
            &&& 0 <= i < extra.len() && extra[i]@ == "0.0.0.0/0"@ ==> mentions(
                reply,
                ",route 0.0.0.0 128.0.0.0"@,
            ) && mentions(reply, ",route 128.0.0.0 128.0.0.0"@)
            &&& 0 <= i < cfg.push_routes_v6@.len() ==> mentions(
                reply,
                ",route-ipv6 "@ + cfg.push_routes_v6@[i]@,
            )
            &&& 0 <= i < cfg.push_dns@.len() ==> mentions(
                reply,
                ",dhcp-option DNS "@ + cfg.push_dns@[i].text(),
            )
        }),
{
    let head = reply_head(cfg, ip, ip6);
    let tail = reply_tail(cfg, peer_id);
    let all = cfg.push_routes@ + extra;
    let cidrs = texts(all);
    let a = route_directives(cidrs);
    let b = half_routes(cidrs.contains("0.0.0.0/0"@));
    let c = prefixed(",route-ipv6 "@, texts(cfg.push_routes_v6@));
    let dns = cfg.push_dns@.map_values(|ip: IpAddress| ip.text());
    let d = prefixed(",dhcp-option DNS "@, dns);
    let reply = reply_text(cfg, ip, ip6, peer_id, extra);
    assert(reply =~= head + a + (b + c + d + tail));
    assert(reply =~= (head + a) + b + (c + d + tail));
    assert(reply =~= (head + a + b) + c + (d + tail));
    assert(reply =~= (head + a + b + c) + d + tail);
    let k = cfg.push_routes@.len() + i;
    if 0 <= i < cfg.push_routes@.len() {
        assert(cidrs[i] == cfg.push_routes@[i]@);
        lemma_one_route(head, cidrs, c + d + tail, i);
    }
    if 0 <= i < extra.len() {
        assert(cidrs[k] == extra[i]@);
        lemma_one_route(head, cidrs, c + d + tail, k);
    }
    if 0 <= i < cfg.push_routes_v6@.len() {
        lemma_item_is_told(",route-ipv6 "@, texts(cfg.push_routes_v6@), i);
        lemma_mentions_inner(head + a + b, c, d + tail, ",route-ipv6 "@ + cfg.push_routes_v6@[i]@);
    }
    if 0 <= i < cfg.push_dns@.len() {
        lemma_item_is_told(",dhcp-option DNS "@, dns, i);
        lemma_mentions_inner(
            head + a + b + c,
            d,
            tail,
            ",dhcp-option DNS "@ + cfg.push_dns@[i].text(),
        );
    }
}

/// One route of a list, in a text that tells the list.
proof fn lemma_one_route(head: Seq<char>, cidrs: Seq<Seq<char>>, tail: Seq<char>, i: int)
    requires
        0 <= i < cidrs.len(),
    ensures
        ({
            let text = (head + route_directives(cidrs)) + half_routes(
                cidrs.contains("0.0.0.0/0"@),
            ) + tail;
            &&& cidrs[i] != "0.0.0.0/0"@ ==> (route_of(cidrs[i]) matches Some((net, mask))
                ==> mentions(text, ",route "@ + net + " "@ + ipv4_text(mask)))
            &&& cidrs[i] == "0.0.0.0/0"@ ==> mentions(text, ",route 0.0.0.0 128.0.0.0"@)
                && mentions(text, ",route 128.0.0.0 128.0.0.0"@)
        }),
{
    let a = route_directives(cidrs);
    let b = half_routes(cidrs.contains("0.0.0.0/0"@));
    let text = (head + a) + b + tail;
    if cidrs[i] == "0.0.0.0/0"@ {
        assert(cidrs.contains(cidrs[i]));
        let x = ",route 0.0.0.0 128.0.0.0"@;
        let y = ",route 128.0.0.0 128.0.0.0"@;
        lemma_mentions(head + a, x, y + tail);
        assert((head + a) + x + (y + tail) =~= text);
        lemma_mentions(head + a + x, y, tail);
        assert((head + a + x) + y + tail =~= text);
    } else if let Some((net, mask)) = route_of(cidrs[i]) {
        lemma_route_is_told(cidrs, i, net, mask);
        lemma_mentions_inner(head, a, b + tail, ",route "@ + net + " "@ + ipv4_text(mask));
        assert(head + a + (b + tail) =~= text);
    }
}

/// A reply says, in this order and nothing else: the client's address with the
/// mask of the tunnel, or that of a /24 where the tunnel's is not IPv4; the
/// topology and the gateway, which is the server; the IPv6 address with the
/// prefix and the server's, where both have one; the routes of the server and
/// then those of the client; everything in two halves, if either list has it;
/// the IPv6 routes; the name servers; the two intervals; the cipher; the id.
pub proof fn law_reply_in_full(
    cfg: ServerConfig,
    ip: u32,
    ip6: Option<u128>,
    peer_id: u32,
    extra: Seq<String>,
)
    ensures
        ({
            let mask = match cfg.tun_netmask {
                IpAddress::V4(m) => ipv4_text(m),
                IpAddress::V6(_) => ipv4_text(0xffff_ff00),
            };
            let six = match (cfg.tun_ip6, ip6) {
                (Some(IpAddress::V6(server)), Some(client)) => ",ifconfig-ipv6 "@ + ipv6_text(
                    client,
                ) + "/"@ + decimal(cfg.tun_prefix6 as nat) + " "@ + ipv6_text(server),
                _ => Seq::empty(),
            };
            let own = texts(cfg.push_routes@);
            let more = texts(extra);
            let halves = if own.contains("0.0.0.0/0"@) || more.contains("0.0.0.0/0"@) {
                ",route 0.0.0.0 128.0.0.0"@ + ",route 128.0.0.0 128.0.0.0"@
            } else {
                Seq::empty()
            };
            let addresses = "PUSH_REPLY"@ + ",ifconfig "@ + ipv4_text(ip) + " "@ + mask
                + ",topology subnet"@ + ",route-gateway "@ + cfg.tun_ip.text() + six;
            let routes = route_directives(own) + route_directives(more) + halves + prefixed(
                ",route-ipv6 "@,
                texts(cfg.push_routes_v6@),
            ) + prefixed(
                ",dhcp-option DNS "@,
                Seq::new(cfg.push_dns@.len(), |i: int| cfg.push_dns@[i].text()),
            );
            let rest = ",ping "@ + decimal(cfg.keepalive_ping as nat) + ",ping-restart "@ + decimal(
                cfg.keepalive_timeout as nat,
            ) + ",cipher AES-256-GCM"@ + ",peer-id "@ + decimal(peer_id as nat);
            reply_text(cfg, ip, ip6, peer_id, extra) == addresses + routes + rest
        }),
{
    let own = texts(cfg.push_routes@);
    let more = texts(extra);
    assert(texts(cfg.push_routes@ + extra) =~= own + more);
    law_routes_merge(own, more);
    assert(cfg.push_dns@.map_values(|ip: IpAddress| ip.text()) =~= Seq::new(
        cfg.push_dns@.len(),
        |i: int| cfg.push_dns@[i].text(),
    ));
}

} // verus!
