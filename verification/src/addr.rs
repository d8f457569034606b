//! IP addresses and transport endpoints, as numbers and as text.

use vstd::prelude::*;

use crate::text::{
    all_digits, chars_of, decimal, hexadecimal, is_digit, law_decimal_round_trip, lemma_decimal,
    parse_u32, push_decimal, push_hexadecimal, push_text, same_text, u32_of,
};

verus! {

/// An IP address: the number that its octets write, most significant first.
#[derive(Debug, Clone, Copy, PartialEq, Eq, Structural)]
pub enum IpAddress {
    V4(u32),
    V6(u128),
}

/// The transport address of a peer. Flow information and scope belong to IPv6
/// and are 0 otherwise.
#[derive(Debug, Clone, Copy, PartialEq, Eq, Structural)]
pub struct Endpoint {
    pub ip: IpAddress,
    pub port: u16,
    pub flowinfo: u32,
    pub scope_id: u32,
}

/// An IPv4 address as text: four decimal octets.
pub open spec fn ipv4_text(ip: u32) -> Seq<char> {
    decimal((ip / 0x100_0000) as nat) + seq!['.'] + decimal((ip / 0x1_0000 % 0x100) as nat)
        + seq!['.'] + decimal((ip / 0x100 % 0x100) as nat) + seq!['.'] + decimal(
        (ip % 0x100) as nat,
    )
}

/// Whether a text is that of an IPv4 address.
pub open spec fn is_ipv4_text(s: Seq<char>) -> bool {
    exists|ip: u32| s == #[trigger] ipv4_text(ip)
}

/// The `n` low-order 16-bit groups of `x`, most significant first.
pub open spec fn groups_of(x: nat, n: nat) -> Seq<u16>
    decreases n,
{
    if n == 0 {
        Seq::empty()
    } else {
        groups_of(x / 0x1_0000, (n - 1) as nat).push((x % 0x1_0000) as u16)
    }
}

/// The groups in hexadecimal, with colons between them.
pub open spec fn colon_text(groups: Seq<u16>) -> Seq<char>
    decreases groups.len(),
{
    if groups.len() == 0 {
        Seq::empty()
    } else if groups.len() == 1 {
        hexadecimal(groups[0] as nat)
    } else {
        colon_text(groups.drop_last()) + seq![':'] + hexadecimal(groups.last() as nat)
    }
}

/// How many groups from `i` on are zero without a gap.
pub open spec fn zero_run(groups: Seq<u16>, i: int) -> nat
    decreases groups.len() - i,
{
    if 0 <= i < groups.len() && groups[i] == 0 {
        1 + zero_run(groups, i + 1)
    } else {
        0
    }
}

/// Start and length of the longest run of zero groups among those that start
/// before `n`; the first one where several are longest.
pub open spec fn longest_run(groups: Seq<u16>, n: nat) -> (nat, nat)
    decreases n,
{
    if n == 0 {
        (0, 0)
    } else {
        let best = longest_run(groups, (n - 1) as nat);
        let here = zero_run(groups, n - 1);
        if here > best.1 {
            ((n - 1) as nat, here)
        } else {
            best
        }
    }
}

/// An IPv6 address as text, in the form of RFC 5952: hexadecimal groups, the
/// first longest run of two or more zero groups written as two colons, and an
/// IPv4-mapped address with its last 32 bits in IPv4 form.
pub open spec fn ipv6_text(ip: u128) -> Seq<char> {
    let groups = groups_of(ip as nat, 8);
    let (start, len) = longest_run(groups, 8);
    if ip / 0x1_0000_0000 == 0xffff {
        "::ffff:"@ + ipv4_text((ip % 0x1_0000_0000) as u32)
    } else if len > 1 {
        colon_text(groups.take(start as int)) + "::"@ + colon_text(groups.skip((start + len) as int))
    } else {
        colon_text(groups)
    }
}

impl IpAddress {
    /// The address as text.
    pub open spec fn text(self) -> Seq<char> {
        match self {
            IpAddress::V4(ip) => ipv4_text(ip),
            IpAddress::V6(ip) => ipv6_text(ip),
        }
    }
}

/// Appends an IPv4 address.
pub fn push_ipv4(out: &mut String, ip: u32)
    ensures
        final(out)@ == old(out)@ + ipv4_text(ip),
{
    proof {
        reveal_strlit(".");
        assert("."@ =~= seq!['.']);
    }
    push_decimal(out, (ip / 0x100_0000) as u64);
    push_text(out, ".");
    push_decimal(out, (ip / 0x1_0000 % 0x100) as u64);
    push_text(out, ".");
    push_decimal(out, (ip / 0x100 % 0x100) as u64);
    push_text(out, ".");
    push_decimal(out, (ip % 0x100) as u64);
    assert(out@ =~= old(out)@ + ipv4_text(ip));
}

/// An address as text holds nothing but digits and dots.
pub proof fn lemma_ipv4_text_chars(ip: u32)
    ensures
        forall|i: int|
            0 <= i < ipv4_text(ip).len() ==> is_digit(#[trigger] ipv4_text(ip)[i])
                || ipv4_text(ip)[i] == '.',
{
    let a = decimal((ip / 0x100_0000) as nat);
    let b = decimal((ip / 0x1_0000 % 0x100) as nat);
    let c = decimal((ip / 0x100 % 0x100) as nat);
    let d = decimal((ip % 0x100) as nat);
    lemma_decimal((ip / 0x100_0000) as nat);
    lemma_decimal((ip / 0x1_0000 % 0x100) as nat);
    lemma_decimal((ip / 0x100 % 0x100) as nat);
    lemma_decimal((ip % 0x100) as nat);
    assert(all_digits(a) && all_digits(b) && all_digits(c) && all_digits(d));
}

/// Whether `s` starts with the octet `x` of an IPv4 address, with a dot behind
/// it, or, for the last one, nothing.
#[verifier::opaque]
spec fn octet_at(s: Seq<char>, x: nat, rest: Seq<char>, last: bool) -> bool {
    &&& x < 256
    &&& s == decimal(x) + rest
    &&& if last {
        rest.len() == 0
    } else {
        rest.len() > 0 && rest[0] == '.'
    }
}

/// Whether `c` is a decimal digit.
fn decimal_digit(c: char) -> (r: bool)
    ensures
        r == is_digit(c),
{
    let n: u32 = c as u32;
    48 <= n && n <= 57
}

/// The digits at the front of a text that starts with an octet are those of
/// the octet.
proof fn lemma_octet_digits(s: Seq<char>, x: nat, rest: Seq<char>, last: bool, m: int)
    requires
        octet_at(s, x, rest, last),
        0 <= m <= s.len(),
        all_digits(s.take(m)),
        m < s.len() ==> !is_digit(s[m]),
    ensures
        x < 256,
        m == decimal(x).len(),
        u32_of(s.take(m)) == Some(x as u32),
        last ==> m == s.len(),
        !last ==> m < s.len() && s[m] == '.',
{
    reveal(octet_at);
    lemma_decimal(x);
    law_decimal_round_trip(x as u32);
    let k = decimal(x).len() as int;
    if m < k {
        assert(s[m] == decimal(x)[m]);
    }
    if m > k {
        assert(s[k] == rest[0]);
        assert(s.take(m)[k] == s[k]);
    }
    assert(s.take(m) =~= decimal(x));
}

/// Reads the octet of an IPv4 address at `from`, with the dot behind it, or,
/// for the last one, up to the end: its value, and where the next one starts.
fn octet(v: &Vec<char>, from: usize, last: bool) -> (r: Option<(u32, usize)>)
    requires
        from <= v@.len(),
    ensures
        r matches Some((x, next)) ==> x < 256 && from <= next <= v@.len(),
        forall|x: nat, rest: Seq<char>| #[trigger]
            octet_at(v@.skip(from as int), x, rest, last) ==> (r matches Some((y, next)) && y == x
                && next == from + decimal(x).len() + (if last {
                0int
            } else {
                1
            })),
{
    let n: usize = v.len();
    let mut end: usize = from;
    while end < n && decimal_digit(v[end])
        invariant
            from <= end <= n == v@.len(),
            forall|j: int| from <= j < end ==> is_digit(#[trigger] v@[j]),
        decreases n - end,
    {
        end += 1;
    }
    let value: Option<u32> = parse_u32(v, from, end);
    proof {
        let s = v@.skip(from as int);
        assert(v@.subrange(from as int, end as int) =~= s.take(end - from));
        assert forall|x: nat, rest: Seq<char>| #[trigger]
            octet_at(s, x, rest, last) implies x < 256 && value == Some(x as u32) && end == from + decimal(
            x,
        ).len() && (last ==> end == n) && (!last ==> end < n && v@[end as int] == '.') by {
            lemma_octet_digits(s, x, rest, last, end - from);
        }
    }
    match value {
        None => None,
        Some(x) => {
            if x > 255 {
                None
            } else if last {
                if end == n {
                    Some((x, end))
                } else {
                    None
                }
            } else if end < n && v[end] == '.' {
                Some((x, end + 1))
            } else {
                None
            }
        },
    }
}

/// Where the octets of an IPv4 address stand in its text.
proof fn lemma_ipv4_octets(s: Seq<char>, ip: u32)
    requires
        s == ipv4_text(ip),
    ensures
        ({
            let a = (ip / 0x100_0000) as nat;
            let b = (ip / 0x1_0000 % 0x100) as nat;
            let c = (ip / 0x100 % 0x100) as nat;
            let d = (ip % 0x100) as nat;
            let i = decimal(a).len() as int + 1;
            let j = i + decimal(b).len() + 1;
            let k = j + decimal(c).len() + 1;
            &&& octet_at(s.skip(0), a, s.skip(i - 1), false)
            &&& octet_at(s.skip(i), b, s.skip(j - 1), false)
            &&& octet_at(s.skip(j), c, s.skip(k - 1), false)
            &&& octet_at(s.skip(k), d, Seq::empty(), true)
            &&& ip == a * 0x100_0000 + b * 0x1_0000 + c * 0x100 + d
        }),
{
    reveal(octet_at);
    let a = (ip / 0x100_0000) as nat;
    let b = (ip / 0x1_0000 % 0x100) as nat;
    let c = (ip / 0x100 % 0x100) as nat;
    let d = (ip % 0x100) as nat;
    let i = decimal(a).len() as int + 1;
    let j = i + decimal(b).len() + 1;
    let k = j + decimal(c).len() + 1;
    assert(s.skip(0) =~= decimal(a) + s.skip(i - 1));
    assert(s.skip(i) =~= decimal(b) + s.skip(j - 1));
    assert(s.skip(j) =~= decimal(c) + s.skip(k - 1));
    assert(s.skip(k) =~= decimal(d) + Seq::<char>::empty());
}

/// The IPv4 address that a text is of: four decimal octets without leading
/// zeros, and nothing else.
pub fn parse_ipv4(s: &str) -> (r: Option<u32>)
    ensures
        match r {
            Some(ip) => s@ == ipv4_text(ip),
            None => !is_ipv4_text(s@),
        },
{
    let v: Vec<char> = chars_of(s);
    let ghost valid = is_ipv4_text(s@);
    let ghost ip0 = choose|ip: u32| s@ == #[trigger] ipv4_text(ip);
    proof {
        if valid {
            lemma_ipv4_octets(s@, ip0);
        }
    }
    let (a, i) = match octet(&v, 0, false) {
        Some(read) => read,
        None => return None,
    };
    let (b, j) = match octet(&v, i, false) {
        Some(read) => read,
        None => return None,
    };
    let (c, k) = match octet(&v, j, false) {
        Some(read) => read,
        None => return None,
    };
    let (d, _) = match octet(&v, k, true) {
        Some(read) => read,
        None => return None,
    };
    let ip: u32 = a * 0x100_0000 + b * 0x1_0000 + c * 0x100 + d;
    assert(valid ==> ip == ip0);
    let mut text: String = String::new();
    push_ipv4(&mut text, ip);
    assert(text@ =~= ipv4_text(ip));
    if same_text(text.as_str(), s) {
        Some(ip)
    } else {
        None
    }
}

/// The `n` low-order groups of `x`.
fn groups(x: u128, n: usize) -> (r: Vec<u16>)
    ensures
        r@ == groups_of(x as nat, n as nat),
        r@.len() == n,
    decreases n,
{
    if n == 0 {
        Vec::new()
    } else {
        let mut r: Vec<u16> = groups(x / 0x1_0000, n - 1);
        r.push((x % 0x1_0000) as u16);
        r
    }
}

/// How many groups from `i` on are zero without a gap.
fn run_at(groups: &Vec<u16>, i: usize) -> (n: usize)
    requires
        i <= groups@.len(),
    ensures
        n == zero_run(groups@, i as int),
        i + n <= groups@.len(),
    decreases groups@.len() - i,
{
    if i < groups.len() && groups[i] == 0 {
        1 + run_at(groups, i + 1)
    } else {
        0
    }
}

/// Start and length of the first longest run of zero groups.
fn longest(groups: &Vec<u16>) -> (r: (usize, usize))
    ensures
        (r.0 as nat, r.1 as nat) == longest_run(groups@, groups@.len()),
        r.0 + r.1 <= groups@.len(),
{
    let mut start: usize = 0;
    let mut len: usize = 0;
    let mut i: usize = 0;
    while i < groups.len()
        invariant
            i <= groups@.len(),
            (start as nat, len as nat) == longest_run(groups@, i as nat),
            start + len <= groups@.len(),
        decreases groups@.len() - i,
    {
        let n: usize = run_at(groups, i);
        if n > len {
            start = i;
            len = n;
        }
        i += 1;
    }
    (start, len)
}

/// Appends `groups[from..to]` in hexadecimal, with colons between them.
fn push_groups(out: &mut String, groups: &Vec<u16>, from: usize, to: usize)
    requires
        from <= to <= groups@.len(),
    ensures
        final(out)@ == old(out)@ + colon_text(groups@.subrange(from as int, to as int)),
    decreases to - from,
{
    if from < to {
        let ghost g = groups@.subrange(from as int, to as int);
        if to - from > 1 {
            proof {
                reveal_strlit(":");
                assert(":"@ =~= seq![':']);
                assert(g.drop_last() =~= groups@.subrange(from as int, to - 1));
            }
            push_groups(out, groups, from, to - 1);
            push_text(out, ":");
        }
        push_hexadecimal(out, groups[to - 1] as u64);
        assert(g.last() == groups@[to - 1]);
    }
    assert(out@ =~= old(out)@ + colon_text(groups@.subrange(from as int, to as int)));
}

/// Appends an IPv6 address.
pub fn push_ipv6(out: &mut String, ip: u128)
    ensures
        final(out)@ == old(out)@ + ipv6_text(ip),
{
    if ip / 0x1_0000_0000 == 0xffff {
        push_text(out, "::ffff:");
        push_ipv4(out, (ip % 0x1_0000_0000) as u32);
    } else {
        let groups: Vec<u16> = groups(ip, 8);
        let (start, len) = longest(&groups);
        if len > 1 {
            push_groups(out, &groups, 0, start);
            push_text(out, "::");
            push_groups(out, &groups, start + len, 8);
            assert(groups@.subrange(0, start as int) =~= groups@.take(start as int));
            assert(groups@.subrange(start + len, 8) =~= groups@.skip(start + len));
        } else {
            push_groups(out, &groups, 0, 8);
            assert(groups@.subrange(0, 8) =~= groups@);
        }
    }
    assert(out@ =~= old(out)@ + ipv6_text(ip));
}

/// Appends an IP address.
pub fn push_ip(out: &mut String, ip: IpAddress)
    ensures
        final(out)@ == old(out)@ + ip.text(),
{
    match ip {
        IpAddress::V4(v4) => push_ipv4(out, v4),
        IpAddress::V6(v6) => push_ipv6(out, v6),
    }
}

/// An IPv4 address is written as its four octets, the most significant first.
#[verifier::rlimit(30)]
pub proof fn law_ipv4_text(a: u8, b: u8, c: u8, d: u8)
    ensures
        ipv4_text((a * 0x100_0000 + b * 0x1_0000 + c * 0x100 + d) as u32) == decimal(a as nat)
            + seq!['.'] + decimal(b as nat) + seq!['.'] + decimal(c as nat) + seq!['.'] + decimal(
            d as nat,
        ),
{
    let ip = (a * 0x100_0000 + b * 0x1_0000 + c * 0x100 + d) as u32;
    assert(ip / 0x100_0000 == a);
    assert(ip / 0x1_0000 % 0x100 == b);
    assert(ip / 0x100 % 0x100 == c);
    assert(ip % 0x100 == d);
}

/// Groups are written in hexadecimal, with colons between them.
pub proof fn law_colons(groups: Seq<u16>, g: u16)
    ensures
        colon_text(Seq::empty()) == Seq::<char>::empty(),
        colon_text(seq![g]) == hexadecimal(g as nat),
        groups.len() > 0 ==> colon_text(groups.push(g)) == colon_text(groups) + seq![':']
            + hexadecimal(g as nat),
{
    assert(groups.push(g).drop_last() =~= groups);
}

/// Whether `len` groups from `start` on are zero.
pub open spec fn zeros(groups: Seq<u16>, start: int, len: int) -> bool {
    0 <= start && 0 <= len && start + len <= groups.len() && forall|i: int|
        start <= i < start + len ==> #[trigger] groups[i] == 0
}

/// How far a run of zeros goes: to its end.
proof fn lemma_zero_run(groups: Seq<u16>, i: int)
    requires
        0 <= i <= groups.len(),
    ensures
        zeros(groups, i, zero_run(groups, i) as int),
        i + zero_run(groups, i) < groups.len() ==> groups[i + zero_run(groups, i)] != 0,
    decreases groups.len() - i,
{
    if i < groups.len() && groups[i] == 0 {
        lemma_zero_run(groups, i + 1);
        let n = zero_run(groups, i) as int;
        assert forall|j: int| i <= j < i + n implies #[trigger] groups[j] == 0 by {
            if j > i {
                assert(groups[j] == 0);
            }
        }
    }
}

/// The longest run is a run, none is longer, and none before it is as long.
proof fn lemma_longest_run(groups: Seq<u16>, n: nat)
    requires
        n <= groups.len(),
    ensures
        ({
            let (start, len) = longest_run(groups, n);
            &&& zeros(groups, start as int, len as int)
            &&& len > 0 ==> start < n
            &&& forall|i: int| 0 <= i < n ==> #[trigger] zero_run(groups, i) <= len
            &&& forall|i: int| 0 <= i < start ==> #[trigger] zero_run(groups, i) < len
        }),
    decreases n,
{
    if n > 0 {
        lemma_longest_run(groups, (n - 1) as nat);
        lemma_zero_run(groups, n - 1);
    }
}

/// An IPv6 address is written as RFC 5952 says. `groups` are its eight groups
/// of sixteen bits, the most significant first. An IPv4-mapped address has its
/// last 32 bits in IPv4 form. Of any other address, the longest run of zero
/// groups, and the first of several such, is written as two colons if it has
/// two groups or more; all other groups are written out.
pub proof fn law_ipv6_text(ip: u128, groups: Seq<u16>, start: int, len: int)
    requires
        groups.len() == 8,
        ip == groups[0] * 0x1_0000_0000_0000_0000_0000_0000_0000 + groups[1]
            * 0x1_0000_0000_0000_0000_0000_0000 + groups[2] * 0x1_0000_0000_0000_0000_0000
            + groups[3] * 0x1_0000_0000_0000_0000 + groups[4] * 0x1_0000_0000_0000 + groups[5]
            * 0x1_0000_0000 + groups[6] * 0x1_0000 + groups[7],
        len > 0,
        zeros(groups, start, len),
        forall|a: int, l: int| #[trigger] zeros(groups, a, l) ==> l < len || (l == len && start <= a),
    ensures
        ({
            let mapped = groups[0] == 0 && groups[1] == 0 && groups[2] == 0 && groups[3] == 0
                && groups[4] == 0 && groups[5] == 0xffff;
            &&& mapped ==> ipv6_text(ip) == "::ffff:"@ + ipv4_text(
                (groups[6] * 0x1_0000 + groups[7]) as u32,
            )
            &&& !mapped && len >= 2 ==> ipv6_text(ip) == colon_text(groups.take(start)) + "::"@
                + colon_text(groups.skip(start + len))
            &&& !mapped && len < 2 ==> ipv6_text(ip) == colon_text(groups)
        }),
{
    lemma_groups(ip, groups);
    lemma_longest_run(groups, 8);
    let (s, l) = longest_run(groups, 8);
    assert(zeros(groups, s as int, l as int));
    lemma_run_at_least(groups, start, len);
    assert(zero_run(groups, start) <= l);
    lemma_zero_run(groups, start);
    assert(l == len);
    if s > start {
        assert(zero_run(groups, start) < l);
    }
    lemma_mapped(ip, groups);
}

/// An address without a zero group is written out.
pub proof fn law_ipv6_text_without_zeros(ip: u128, groups: Seq<u16>)
    requires
        groups.len() == 8,
        ip == groups[0] * 0x1_0000_0000_0000_0000_0000_0000_0000 + groups[1]
            * 0x1_0000_0000_0000_0000_0000_0000 + groups[2] * 0x1_0000_0000_0000_0000_0000
            + groups[3] * 0x1_0000_0000_0000_0000 + groups[4] * 0x1_0000_0000_0000 + groups[5]
            * 0x1_0000_0000 + groups[6] * 0x1_0000 + groups[7],
        forall|i: int| 0 <= i < 8 ==> #[trigger] groups[i] != 0,
    ensures
        ipv6_text(ip) == colon_text(groups),
{
    lemma_groups(ip, groups);
    lemma_longest_run(groups, 8);
    let (s, l) = longest_run(groups, 8);
    if l > 0 {
        assert(groups[s as int] == 0);
    }
    lemma_mapped(ip, groups);
}

/// A run that is there is found.
proof fn lemma_run_at_least(groups: Seq<u16>, start: int, len: int)
    requires
        zeros(groups, start, len),
    ensures
        zero_run(groups, start) >= len,
    decreases len,
{
    if len > 0 {
        assert(groups[start] == 0);
        lemma_run_at_least(groups, start + 1, len - 1);
    }
}

/// The groups of an address, from its value.
proof fn lemma_groups(ip: u128, groups: Seq<u16>)
    requires
        groups.len() == 8,
        ip == groups[0] * 0x1_0000_0000_0000_0000_0000_0000_0000 + groups[1]
            * 0x1_0000_0000_0000_0000_0000_0000 + groups[2] * 0x1_0000_0000_0000_0000_0000
            + groups[3] * 0x1_0000_0000_0000_0000 + groups[4] * 0x1_0000_0000_0000 + groups[5]
            * 0x1_0000_0000 + groups[6] * 0x1_0000 + groups[7],
    ensures
        groups_of(ip as nat, 8) == groups,
{
    let g = groups;
    let x1 = g[0] as nat;
    let x2 = x1 * 0x1_0000 + g[1] as nat;
    let x3 = x2 * 0x1_0000 + g[2] as nat;
    let x4 = x3 * 0x1_0000 + g[3] as nat;
    let x5 = x4 * 0x1_0000 + g[4] as nat;
    let x6 = x5 * 0x1_0000 + g[5] as nat;
    let x7 = x6 * 0x1_0000 + g[6] as nat;
    let x8 = x7 * 0x1_0000 + g[7] as nat;
    assert(x8 == ip);
    let e = Seq::<u16>::empty();
    assert(groups_of(0, 0) == e);
    assert(groups_of(x1 / 0x1_0000, 0) == e);
    assert(groups_of(x1, 1) =~= e.push(g[0]));
    assert(x2 / 0x1_0000 == x1 && x2 % 0x1_0000 == g[1]);
    assert(groups_of(x2, 2) == groups_of(x1, 1).push(g[1]));
    assert(x3 / 0x1_0000 == x2 && x3 % 0x1_0000 == g[2]);
    assert(groups_of(x3, 3) == groups_of(x2, 2).push(g[2]));
    assert(x4 / 0x1_0000 == x3 && x4 % 0x1_0000 == g[3]);
    assert(groups_of(x4, 4) == groups_of(x3, 3).push(g[3]));
    assert(x5 / 0x1_0000 == x4 && x5 % 0x1_0000 == g[4]);
    assert(groups_of(x5, 5) == groups_of(x4, 4).push(g[4]));
    assert(x6 / 0x1_0000 == x5 && x6 % 0x1_0000 == g[5]);
    assert(groups_of(x6, 6) == groups_of(x5, 5).push(g[5]));
    assert(x7 / 0x1_0000 == x6 && x7 % 0x1_0000 == g[6]);
    assert(groups_of(x7, 7) == groups_of(x6, 6).push(g[6]));
    assert(x8 / 0x1_0000 == x7 && x8 % 0x1_0000 == g[7]);
    assert(groups_of(x8, 8) == groups_of(x7, 7).push(g[7]));
    assert(groups_of(x8, 8) =~= groups);
}

/// What makes an address IPv4-mapped.
proof fn lemma_mapped(ip: u128, groups: Seq<u16>)
    requires
        groups.len() == 8,
        ip == groups[0] * 0x1_0000_0000_0000_0000_0000_0000_0000 + groups[1]
            * 0x1_0000_0000_0000_0000_0000_0000 + groups[2] * 0x1_0000_0000_0000_0000_0000
            + groups[3] * 0x1_0000_0000_0000_0000 + groups[4] * 0x1_0000_0000_0000 + groups[5]
            * 0x1_0000_0000 + groups[6] * 0x1_0000 + groups[7],
    ensures
        ip / 0x1_0000_0000 == 0xffff <==> groups[0] == 0 && groups[1] == 0 && groups[2] == 0
            && groups[3] == 0 && groups[4] == 0 && groups[5] == 0xffff,
        ip % 0x1_0000_0000 == groups[6] * 0x1_0000 + groups[7],
{
    let high = groups[0] * 0x1_0000_0000_0000_0000_0000 + groups[1] * 0x1_0000_0000_0000_0000
        + groups[2] * 0x1_0000_0000_0000 + groups[3] * 0x1_0000_0000 + groups[4] * 0x1_0000
        + groups[5];
    let low = groups[6] * 0x1_0000 + groups[7];
    assert(ip == high * 0x1_0000_0000 + low);
    assert(ip / 0x1_0000_0000 == high);
    assert(ip % 0x1_0000_0000 == low);
}

/// A text is that of an IPv4 address exactly if it is four numbers below 256
/// without leading zeros and with dots between them.
#[verifier::rlimit(30)]
pub proof fn law_is_ipv4_text(s: Seq<char>)
    ensures
        is_ipv4_text(s) <==> exists|a: u8, b: u8, c: u8, d: u8|
            s == #[trigger] decimal(a as nat) + seq!['.'] + #[trigger] decimal(b as nat) + seq!['.']
                + #[trigger] decimal(c as nat) + seq!['.'] + #[trigger] decimal(d as nat),
{
    if is_ipv4_text(s) {
        let ip = choose|ip: u32| s == #[trigger] ipv4_text(ip);
        let a = (ip / 0x100_0000) as u8;
        let b = (ip / 0x1_0000 % 0x100) as u8;
        let c = (ip / 0x100 % 0x100) as u8;
        let d = (ip % 0x100) as u8;
        assert(s == decimal(a as nat) + seq!['.'] + decimal(b as nat) + seq!['.'] + decimal(
            c as nat,
        ) + seq!['.'] + decimal(d as nat));
    }
    if exists|a: u8, b: u8, c: u8, d: u8|
        s == #[trigger] decimal(a as nat) + seq!['.'] + #[trigger] decimal(b as nat) + seq!['.']
            + #[trigger] decimal(c as nat) + seq!['.'] + #[trigger] decimal(d as nat) {
        let (a, b, c, d): (u8, u8, u8, u8) = choose|a: u8, b: u8, c: u8, d: u8|
            s == #[trigger] decimal(a as nat) + seq!['.'] + #[trigger] decimal(b as nat) + seq!['.']
                + #[trigger] decimal(c as nat) + seq!['.'] + #[trigger] decimal(d as nat);
        law_ipv4_text(a, b, c, d);
    }
}

/// An address is written in the form of its version.
pub proof fn law_address_text(v4: u32, v6: u128)
    ensures
        IpAddress::V4(v4).text() == ipv4_text(v4),
        IpAddress::V6(v6).text() == ipv6_text(v6),
{
}

} // verus!
