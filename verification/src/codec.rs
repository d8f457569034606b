//! Big-endian integers and plain byte copying.

use vstd::prelude::*;

verus! {

/// The number that `s` writes in base 256, most significant byte first.
pub open spec fn be_value(s: Seq<u8>) -> nat
    decreases s.len(),
{
    if s.len() == 0 {
        0
    } else {
        be_value(s.drop_last()) * 256 + s.last() as nat
    }
}

/// The `n` low-order base-256 digits of `x`, most significant first.
pub open spec fn be_bytes(x: nat, n: nat) -> Seq<u8>
    decreases n,
{
    if n == 0 {
        Seq::empty()
    } else {
        be_bytes(x / 256, (n - 1) as nat).push((x % 256) as u8)
    }
}

/// 256 to the power `n`: one more than the largest number of `n` bytes.
pub open spec fn be_limit(n: nat) -> nat
    decreases n,
{
    if n == 0 {
        1
    } else {
        256 * be_limit((n - 1) as nat)
    }
}

/// The limits of the widths that the wire formats use.
pub proof fn lemma_be_limits()
    ensures
        be_limit(1) == 0x100,
        be_limit(2) == 0x1_0000,
        be_limit(3) == 0x100_0000,
        be_limit(4) == 0x1_0000_0000,
        be_limit(8) == 0x1_0000_0000_0000_0000,
{
    reveal_with_fuel(be_limit, 9);
}

/// `be_bytes(x, n)` has `n` bytes.
pub broadcast proof fn lemma_be_bytes_len(x: nat, n: nat)
    ensures
        #[trigger] be_bytes(x, n).len() == n,
    decreases n,
{
    if n > 0 {
        lemma_be_bytes_len(x / 256, (n - 1) as nat);
    }
}

/// A number of `s.len()` bytes is below the limit of that width.
pub proof fn lemma_be_value_bound(s: Seq<u8>)
    ensures
        be_value(s) < be_limit(s.len()),
    decreases s.len(),
{
    if s.len() > 0 {
        lemma_be_value_bound(s.drop_last());
    }
}

/// Reading back the bytes of a number that fits gives the number.
pub proof fn lemma_value_of_bytes(x: nat, n: nat)
    requires
        x < be_limit(n),
    ensures
        be_value(be_bytes(x, n)) == x,
    decreases n,
{
    if n > 0 {
        lemma_be_bytes_len(x, n);
        lemma_value_of_bytes(x / 256, (n - 1) as nat);
        assert(be_bytes(x, n).drop_last() =~= be_bytes(x / 256, (n - 1) as nat));
    }
}

/// Writing the number that some bytes hold gives the bytes.
pub proof fn lemma_bytes_of_value(s: Seq<u8>)
    ensures
        be_bytes(be_value(s), s.len()) == s,
    decreases s.len(),
{
    if s.len() > 0 {
        lemma_bytes_of_value(s.drop_last());
        assert(be_value(s) / 256 == be_value(s.drop_last()));
        assert(be_value(s) % 256 == s.last() as nat);
        assert(be_bytes(be_value(s), s.len()) =~= s);
    } else {
        assert(be_bytes(be_value(s), s.len()) =~= s);
    }
}

/// The digits of a two-, three-, four- and eight-byte number, one by one.
pub proof fn lemma_be_bytes_digits(x: nat)
    ensures
        be_bytes(x, 2) == seq![(x / 0x100 % 256) as u8, (x % 256) as u8],
        be_bytes(x, 3) == seq![
            (x / 0x1_0000 % 256) as u8,
            (x / 0x100 % 256) as u8,
            (x % 256) as u8,
        ],
        be_bytes(x, 4) == seq![
            (x / 0x100_0000 % 256) as u8,
            (x / 0x1_0000 % 256) as u8,
            (x / 0x100 % 256) as u8,
            (x % 256) as u8,
        ],
        be_bytes(x, 8) == be_bytes(x / 0x1_0000_0000, 4) + be_bytes(x, 4),
{
    reveal_with_fuel(be_bytes, 9);
    assert(x / 256 / 256 == x / 0x1_0000);
    assert(x / 256 / 256 / 256 == x / 0x100_0000);
    assert(x / 256 / 256 / 256 / 256 == x / 0x1_0000_0000);
    assert(be_bytes(x, 2) =~= seq![(x / 0x100 % 256) as u8, (x % 256) as u8]);
    assert(be_bytes(x, 3) =~= seq![
        (x / 0x1_0000 % 256) as u8,
        (x / 0x100 % 256) as u8,
        (x % 256) as u8,
    ]);
    assert(be_bytes(x, 4) =~= seq![
        (x / 0x100_0000 % 256) as u8,
        (x / 0x1_0000 % 256) as u8,
        (x / 0x100 % 256) as u8,
        (x % 256) as u8,
    ]);
    assert(be_bytes(x, 8) =~= be_bytes(x / 0x1_0000_0000, 4) + be_bytes(x, 4));
}

/// The value of one to four bytes, written out.
pub proof fn lemma_be_value_digits(s: Seq<u8>)
    ensures
        s.len() == 2 ==> be_value(s) == s[0] * 0x100 + s[1],
        s.len() == 3 ==> be_value(s) == s[0] * 0x1_0000 + s[1] * 0x100 + s[2],
        s.len() == 4 ==> be_value(s) == s[0] * 0x100_0000 + s[1] * 0x1_0000 + s[2] * 0x100 + s[3],
{
    reveal_with_fuel(be_value, 5);
}

/// The value of eight bytes, from its two halves.
pub proof fn lemma_be_value_halves(s: Seq<u8>)
    requires
        s.len() == 8,
    ensures
        be_value(s) == be_value(s.subrange(0, 4)) * 0x1_0000_0000 + be_value(s.subrange(4, 8)),
{
    reveal_with_fuel(be_value, 9);
    assert(s.drop_last().drop_last().drop_last().drop_last() =~= s.subrange(0, 4));
}

/// Only the part of a number below the limit of a width shows in its bytes.
pub proof fn lemma_be_bytes_low(x: nat, n: nat)
    ensures
        be_bytes(x % be_limit(n), n) == be_bytes(x, n),
    decreases n,
{
    if n > 0 {
        let m = (n - 1) as nat;
        let limit = be_limit(m);
        lemma_be_limit_positive(m);
        vstd::arithmetic::div_mod::lemma_mod_breakdown(x as int, 256, limit as int);
        lemma_be_bytes_low(x / 256, m);
        let low = x % (256 * limit);
        assert(low == 256 * ((x / 256) % limit) + x % 256);
        assert(low / 256 == (x / 256) % limit);
        assert(low % 256 == x % 256);
    }
}

proof fn lemma_be_limit_positive(n: nat)
    ensures
        be_limit(n) > 0,
    decreases n,
{
    if n > 0 {
        lemma_be_limit_positive((n - 1) as nat);
    }
}

/// The value of bytes put together.
pub proof fn lemma_be_value_append(a: Seq<u8>, b: Seq<u8>)
    ensures
        be_value(a + b) == be_value(a) * be_limit(b.len()) + be_value(b),
    decreases b.len(),
{
    let x = be_value(a) as int;
    if b.len() == 0 {
        assert(a + b =~= a);
        assert(be_limit(b.len()) == 1);
        assert(x * 1 == x);
    } else {
        let init = b.drop_last();
        lemma_be_value_append(a, init);
        assert((a + b).drop_last() =~= a + init);
        assert((a + b).last() == b.last());
        let l = be_limit(init.len()) as int;
        let y = be_value(init) as int;
        assert(be_limit(b.len()) == 256 * l);
        assert(be_value(a + b) == (x * l + y) * 256 + b.last());
        assert((x * l + y) * 256 == x * (256 * l) + y * 256) by (nonlinear_arith);
    }
}

/// Appends `bytes` to `out`.
pub fn push_bytes(out: &mut Vec<u8>, bytes: &[u8])
    ensures
        final(out)@ == old(out)@ + bytes@,
{
    out.extend_from_slice(bytes);
    assert(out@ =~= old(out)@ + bytes@);
}

/// Appends `x` in two bytes.
pub fn push_u16(out: &mut Vec<u8>, x: u16)
    ensures
        final(out)@ == old(out)@ + be_bytes(x as nat, 2),
{
    proof {
        lemma_be_bytes_digits(x as nat);
    }
    out.push((x / 0x100) as u8);
    out.push((x % 0x100) as u8);
    assert(out@ =~= old(out)@ + be_bytes(x as nat, 2));
}

/// Appends `x` in four bytes.
pub fn push_u32(out: &mut Vec<u8>, x: u32)
    ensures
        final(out)@ == old(out)@ + be_bytes(x as nat, 4),
{
    proof {
        lemma_be_bytes_digits(x as nat);
    }
    out.push((x / 0x100_0000) as u8);
    out.push((x / 0x1_0000 % 0x100) as u8);
    out.push((x / 0x100 % 0x100) as u8);
    out.push((x % 0x100) as u8);
    assert(out@ =~= old(out)@ + be_bytes(x as nat, 4));
}

/// Appends `x` in eight bytes.
pub fn push_u64(out: &mut Vec<u8>, x: u64)
    ensures
        final(out)@ == old(out)@ + be_bytes(x as nat, 8),
{
    let low: u32 = (x % 0x1_0000_0000) as u32;
    push_u32(out, (x / 0x1_0000_0000) as u32);
    push_u32(out, low);
    proof {
        lemma_be_bytes_digits(x as nat);
        lemma_be_limits();
        lemma_be_bytes_low(x as nat, 4);
        assert(out@ =~= old(out)@ + be_bytes(x as nat, 8));
    }
}

/// The two-byte number at `at`.
pub fn read_u16(buf: &[u8], at: usize) -> (x: u16)
    requires
        at + 2 <= buf@.len(),
    ensures
        x as nat == be_value(buf@.subrange(at as int, at + 2)),
{
    proof {
        lemma_be_value_digits(buf@.subrange(at as int, at + 2));
    }
    buf[at] as u16 * 0x100 + buf[at + 1] as u16
}

/// The three-byte number at `at`.
pub fn read_u24(buf: &[u8], at: usize) -> (x: u32)
    requires
        at + 3 <= buf@.len(),
    ensures
        x as nat == be_value(buf@.subrange(at as int, at + 3)),
        x < 0x100_0000,
{
    proof {
        lemma_be_value_digits(buf@.subrange(at as int, at + 3));
    }
    buf[at] as u32 * 0x1_0000 + buf[at + 1] as u32 * 0x100 + buf[at + 2] as u32
}

/// The four-byte number at `at`.
pub fn read_u32(buf: &[u8], at: usize) -> (x: u32)
    requires
        at + 4 <= buf@.len(),
    ensures
        x as nat == be_value(buf@.subrange(at as int, at + 4)),
{
    proof {
        lemma_be_value_digits(buf@.subrange(at as int, at + 4));
    }
    buf[at] as u32 * 0x100_0000 + buf[at + 1] as u32 * 0x1_0000 + buf[at + 2] as u32 * 0x100
        + buf[at + 3] as u32
}

/// The eight-byte number at `at`.
pub fn read_u64(buf: &[u8], at: usize) -> (x: u64)
    requires
        at + 8 <= buf@.len(),
    ensures
        x as nat == be_value(buf@.subrange(at as int, at + 8)),
{
    let len: usize = buf.len();
    assert(at + 8 <= len);
    let high: u32 = read_u32(buf, at);
    let low: u32 = read_u32(buf, at + 4);
    proof {
        let s = buf@.subrange(at as int, at + 8);
        lemma_be_value_halves(s);
        assert(s.subrange(0, 4) =~= buf@.subrange(at as int, at + 4));
        assert(s.subrange(4, 8) =~= buf@.subrange(at + 4, at + 8));
    }
    high as u64 * 0x1_0000_0000 + low as u64
}

/// The `N` bytes at `at`, as an array.
pub fn array_at<const N: usize>(buf: &[u8], at: usize) -> (r: [u8; N])
    requires
        at + N <= buf@.len(),
    ensures
        r@ == buf@.subrange(at as int, at + N),
{
    let len: usize = buf.len();
    let mut r = [0u8; N];
    let mut i: usize = 0;
    while i < N
        invariant
            i <= N,
            at + N <= len == buf@.len(),
            forall|j: int| 0 <= j < i ==> r@[j] == buf@[at + j],
        decreases N - i,
    {
        r[i] = buf[at + i];
        i += 1;
    }
    assert(r@ =~= buf@.subrange(at as int, at + N));
    r
}

/// A copy of `bytes`.
pub fn to_vec(bytes: &[u8]) -> (r: Vec<u8>)
    ensures
        r@ == bytes@,
{
    let mut r: Vec<u8> = Vec::new();
    push_bytes(&mut r, bytes);
    assert(r@ =~= bytes@);
    r
}

/// A copy of `bytes[from..to]`.
pub fn copy_range(bytes: &[u8], from: usize, to: usize) -> (r: Vec<u8>)
    requires
        from <= to <= bytes@.len(),
    ensures
        r@ == bytes@.subrange(from as int, to as int),
{
    to_vec(&bytes[from..to])
}

/// Whether `a` and `b` are the same bytes.
pub fn same_bytes(a: &[u8], b: &[u8]) -> (r: bool)
    ensures
        r == (a@ == b@),
{
    if a.len() != b.len() {
        return false;
    }
    let mut i: usize = 0;
    while i < a.len()
        invariant
            i <= a@.len() == b@.len(),
            forall|j: int| 0 <= j < i ==> a@[j] == b@[j],
        decreases a@.len() - i,
    {
        if a[i] != b[i] {
            return false;
        }
        i += 1;
    }
    assert(a@ =~= b@);
    true
}

} // verus!
