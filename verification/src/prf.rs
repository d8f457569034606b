//! Key derivation of the classic `key-method 2` exchange.
//!
//! Both peers derive 256 bytes of key material from the random bytes that they
//! exchanged and from their session ids, with the TLS 1.0 pseudo-random
//! function applied twice:
//!
//! ```text
//! master   = PRF(pre_master, "OpenVPN master secret",
//!                client.random1 || server.random1)
//! key_data = PRF(master,     "OpenVPN key expansion",
//!                client.random2 || server.random2 ||
//!                client.sid     || server.sid)
//! ```

use vstd::prelude::*;
use vstd::string::StringSliceAdditionalSpecFns;

use crate::codec::{array_at, push_bytes, to_vec};
use crate::crypto::KEYMAT_LEN;
use crate::mac::{hmac_md5, hmac_md5_of, hmac_sha1, hmac_sha1_of};

verus! {

/// Length of the master secret.
pub const MASTER_LEN: usize = 48;

/// The digests that the pseudo-random function combines.
#[derive(Debug, Clone, Copy, PartialEq, Eq, Structural)]
pub enum PrfHash {
    Md5,
    Sha1,
}

impl PrfHash {
    /// Length of the digest.
    pub open spec fn size(self) -> nat {
        match self {
            PrfHash::Md5 => 16,
            PrfHash::Sha1 => 20,
        }
    }

    /// The keyed digest of `message`.
    pub open spec fn mac(self, key: Seq<u8>, message: Seq<u8>) -> Seq<u8> {
        match self {
            PrfHash::Md5 => hmac_md5_of(key, message)@,
            PrfHash::Sha1 => hmac_sha1_of(key, message)@,
        }
    }
}

/// `A(i)` of RFC 4346, section 5: the seed, digested `i` times.
pub open spec fn chain(hash: PrfHash, secret: Seq<u8>, seed: Seq<u8>, i: nat) -> Seq<u8>
    decreases i,
{
    if i == 0 {
        seed
    } else {
        hash.mac(secret, chain(hash, secret, seed, (i - 1) as nat))
    }
}

/// Byte `i` of `P_hash`: the stream
/// `HMAC(secret, A(1) || seed) || HMAC(secret, A(2) || seed) || ...`.
pub open spec fn stream_byte(hash: PrfHash, secret: Seq<u8>, seed: Seq<u8>, i: int) -> u8 {
    let block = (i / hash.size() as int + 1) as nat;
    hash.mac(secret, chain(hash, secret, seed, block) + seed)[i % hash.size() as int]
}

/// The first `n` bytes of `P_hash`.
pub open spec fn stream(hash: PrfHash, secret: Seq<u8>, seed: Seq<u8>, n: nat) -> Seq<u8> {
    Seq::new(n, |i: int| stream_byte(hash, secret, seed, i))
}

/// Half the length of a secret, rounded up.
pub open spec fn half_len(n: nat) -> nat {
    (n / 2 + n % 2) as nat
}

/// `n` bytes of the TLS 1.0 pseudo-random function: the MD5 stream of the
/// first half of the secret and the SHA-1 stream of the second half (they
/// share the middle byte of a secret of odd length), combined by XOR.
pub open spec fn prf(secret: Seq<u8>, label: Seq<u8>, seed: Seq<u8>, n: nat) -> Seq<u8> {
    let half = half_len(secret.len()) as int;
    let first = secret.subrange(0, half);
    let second = secret.subrange(secret.len() - half, secret.len() as int);
    Seq::new(
        n,
        |i: int|
            stream_byte(PrfHash::Md5, first, label + seed, i) ^ stream_byte(
                PrfHash::Sha1,
                second,
                label + seed,
                i,
            ),
    )
}

/// The key material of a session.
pub open spec fn key_data(
    pre_master: Seq<u8>,
    client_random1: Seq<u8>,
    server_random1: Seq<u8>,
    client_random2: Seq<u8>,
    server_random2: Seq<u8>,
    client_sid: Seq<u8>,
    server_sid: Seq<u8>,
) -> Seq<u8> {
    let master = prf(
        pre_master,
        "OpenVPN master secret".spec_bytes(),
        client_random1 + server_random1,
        MASTER_LEN as nat,
    );
    prf(
        master,
        "OpenVPN key expansion".spec_bytes(),
        client_random2 + server_random2 + client_sid + server_sid,
        KEYMAT_LEN as nat,
    )
}

/// The 256 bytes of key material for a session, from what `key-method 2`
/// exchanged.
pub fn derive_openvpn_key_data(
    pre_master: &[u8; 48],
    client_random1: &[u8; 32],
    server_random1: &[u8; 32],
    client_random2: &[u8; 32],
    server_random2: &[u8; 32],
    client_sid: &[u8; 8],
    server_sid: &[u8; 8],
) -> (r: [u8; KEYMAT_LEN])
    ensures
        r@ == key_data(
            pre_master@,
            client_random1@,
            server_random1@,
            client_random2@,
            server_random2@,
            client_sid@,
            server_sid@,
        ),
{
    let mut master_seed: Vec<u8> = Vec::new();
    push_bytes(&mut master_seed, client_random1.as_slice());
    push_bytes(&mut master_seed, server_random1.as_slice());
    assert(master_seed@ =~= client_random1@ + server_random1@);
    let master: Vec<u8> = prf_vec(
        pre_master.as_slice(),
        "OpenVPN master secret".as_bytes(),
        master_seed.as_slice(),
        MASTER_LEN,
    );
    let mut seed: Vec<u8> = Vec::new();
    push_bytes(&mut seed, client_random2.as_slice());
    push_bytes(&mut seed, server_random2.as_slice());
    push_bytes(&mut seed, client_sid.as_slice());
    push_bytes(&mut seed, server_sid.as_slice());
    assert(seed@ =~= client_random2@ + server_random2@ + client_sid@ + server_sid@);
    let out: Vec<u8> = prf_vec(
        master.as_slice(),
        "OpenVPN key expansion".as_bytes(),
        seed.as_slice(),
        KEYMAT_LEN,
    );
    assert(out@.subrange(0, KEYMAT_LEN as int) =~= out@);
    array_at(out.as_slice(), 0)
}

/// The TLS 1.0 pseudo-random function: fills `out`.
pub fn tls10_prf(secret: &[u8], label: &[u8], seed: &[u8], out: &mut [u8])
    ensures
        final(out)@ == prf(secret@, label@, seed@, old(out)@.len()),
{
    let n: usize = out.len();
    let bytes: Vec<u8> = prf_vec(secret, label, seed, n);
    let mut i: usize = 0;
    while i < n
        invariant
            i <= n,
            out@.len() == n == bytes@.len(),
            forall|j: int| 0 <= j < i ==> out@[j] == bytes@[j],
        decreases n - i,
    {
        out[i] = bytes[i];
        i += 1;
    }
    assert(out@ =~= bytes@);
}

/// `n` bytes of the pseudo-random function.
fn prf_vec(secret: &[u8], label: &[u8], seed: &[u8], n: usize) -> (r: Vec<u8>)
    ensures
        r@ == prf(secret@, label@, seed@, n as nat),
{
    let len: usize = secret.len();
    let half: usize = len / 2 + len % 2;
    let first = &secret[0..half];
    let second = &secret[len - half..len];
    let mut combined: Vec<u8> = Vec::new();
    push_bytes(&mut combined, label);
    push_bytes(&mut combined, seed);
    assert(combined@ =~= label@ + seed@);
    let md5: Vec<u8> = p_hash(PrfHash::Md5, first, combined.as_slice(), n);
    let sha1: Vec<u8> = p_hash(PrfHash::Sha1, second, combined.as_slice(), n);
    let mut r: Vec<u8> = Vec::new();
    let mut i: usize = 0;
    while i < n
        invariant
            i <= n,
            r@.len() == i,
            md5@.len() == sha1@.len() == n,
            forall|j: int| 0 <= j < i ==> r@[j] == md5@[j] ^ sha1@[j],
        decreases n - i,
    {
        r.push(md5[i] ^ sha1[i]);
        i += 1;
    }
    assert(r@ =~= prf(secret@, label@, seed@, n as nat));
    r
}

/// The first `n` bytes of `P_hash`.
pub fn p_hash(hash: PrfHash, secret: &[u8], seed: &[u8], n: usize) -> (out: Vec<u8>)
    ensures
        out@ == stream(hash, secret@, seed@, n as nat),
{
    let mut a: Vec<u8> = keyed_digest(hash, secret, seed);
    proof {
        reveal_with_fuel(chain, 2);
    }
    let mut out: Vec<u8> = Vec::new();
    let ghost mut k: nat = 1;
    while out.len() < n
        invariant
            k >= 1,
            a@ == chain(hash, secret@, seed@, k),
            out@.len() <= n,
            out@.len() < n ==> out@.len() == (k - 1) * hash.size(),
            out@ == stream(hash, secret@, seed@, out@.len()),
        decreases n - out@.len(),
    {
        let mut message: Vec<u8> = Vec::new();
        push_bytes(&mut message, a.as_slice());
        push_bytes(&mut message, seed);
        assert(message@ =~= a@ + seed@);
        let block: Vec<u8> = keyed_digest(hash, secret, message.as_slice());
        let ghost start = out@.len();
        let room: usize = n - out.len();
        let take: usize = if block.len() < room {
            block.len()
        } else {
            room
        };
        push_bytes(&mut out, &block.as_slice()[0..take]);
        proof {
            let size = hash.size() as int;
            assert forall|i: int| start <= i < start + take implies #[trigger] out@[i]
                == stream_byte(hash, secret@, seed@, i) by {
                let q = k - 1;
                assert(i == q * size + (i - start));
                vstd::arithmetic::div_mod::lemma_fundamental_div_mod_converse(
                    i,
                    size,
                    q,
                    i - start,
                );
            }
            assert(out@ =~= stream(hash, secret@, seed@, out@.len()));
            assert((k + 1 - 1) * size == (k - 1) * size + size) by (nonlinear_arith);
            k = k + 1;
        }
        a = keyed_digest(hash, secret, a.as_slice());
    }
    out
}

/// The keyed digest of `message`.
fn keyed_digest(hash: PrfHash, key: &[u8], message: &[u8]) -> (r: Vec<u8>)
    ensures
        r@ == hash.mac(key@, message@),
        r@.len() == hash.size(),
{
    match hash {
        PrfHash::Md5 => {
            let tag = hmac_md5(key, message);
            to_vec(tag.as_slice())
        },
        PrfHash::Sha1 => {
            let tag = hmac_sha1(key, message);
            to_vec(tag.as_slice())
        },
    }
}

/// `A(i)` is the only sequence that starts with the seed and goes on with the
/// digest of what came before.
proof fn lemma_chain(hash: PrfHash, secret: Seq<u8>, seed: Seq<u8>, a: Seq<Seq<u8>>, k: nat)
    requires
        k < a.len(),
        a[0] == seed,
        forall|j: int| 0 < j < a.len() ==> #[trigger] a[j] == hash.mac(secret, a[j - 1]),
    ensures
        chain(hash, secret, seed, k) == a[k as int],
    decreases k,
{
    if k > 0 {
        lemma_chain(hash, secret, seed, a, (k - 1) as nat);
        assert(a[k as int] == hash.mac(secret, a[k - 1]));
    }
}

/// The pseudo-random function is that of RFC 2246, section 5, for every
/// secret, label and seed. `a` and `b` are the chains `A(0), A(1), ...` of the
/// two digests: HMAC-MD5 keyed by the first half of the secret, HMAC-SHA-1
/// keyed by the second half, where the halves of a secret of odd length share
/// its middle byte. Each byte is the combination of the bytes that the two
/// streams have at its place, in blocks of 16 and of 20.
pub proof fn law_prf(
    secret: Seq<u8>,
    label: Seq<u8>,
    seed: Seq<u8>,
    n: nat,
    a: Seq<Seq<u8>>,
    b: Seq<Seq<u8>>,
    i: int,
)
    requires
        0 <= i < n,
        i / 16 + 1 < a.len(),
        i / 20 + 1 < b.len(),
        a[0] == label + seed,
        b[0] == label + seed,
        forall|j: int|
            0 < j < a.len() ==> #[trigger] a[j] == hmac_md5_of(
                secret.take((secret.len() as int + 1) / 2),
                a[j - 1],
            )@,
        forall|j: int|
            0 < j < b.len() ==> #[trigger] b[j] == hmac_sha1_of(
                secret.skip(secret.len() as int / 2),
                b[j - 1],
            )@,
    ensures
        prf(secret, label, seed, n).len() == n,
        prf(secret, label, seed, n)[i] == hmac_md5_of(
            secret.take((secret.len() as int + 1) / 2),
            a[i / 16 + 1] + a[0],
        )@[i % 16] ^ hmac_sha1_of(
            secret.skip(secret.len() as int / 2),
            b[i / 20 + 1] + b[0],
        )@[i % 20],
{
    let half = half_len(secret.len()) as int;
    assert(secret.subrange(0, half) =~= secret.take((secret.len() as int + 1) / 2));
    assert(secret.subrange(secret.len() - half, secret.len() as int) =~= secret.skip(
        secret.len() as int / 2,
    ));
    lemma_chain(
        PrfHash::Md5,
        secret.take((secret.len() as int + 1) / 2),
        label + seed,
        a,
        (i / 16 + 1) as nat,
    );
    lemma_chain(
        PrfHash::Sha1,
        secret.skip(secret.len() as int / 2),
        label + seed,
        b,
        (i / 20 + 1) as nat,
    );
}

/// A peer that follows the `key-method 2` derivation has the same keys. From
/// the 48 bytes of the pre-master secret in the order in which the client sent
/// them, and the random values, it computes the chains `a1` and `b1` and the
/// 48 bytes of the master secret; from those and the other random values and
/// the session ids, the client's before the server's, the chains `a2` and `b2`
/// and the key material. Every byte of that is the server's.
pub proof fn law_peers_derive_the_same_keys(
    pre_master: Seq<u8>,
    client_random1: Seq<u8>,
    server_random1: Seq<u8>,
    client_random2: Seq<u8>,
    server_random2: Seq<u8>,
    client_sid: Seq<u8>,
    server_sid: Seq<u8>,
    master: Seq<u8>,
    a1: Seq<Seq<u8>>,
    b1: Seq<Seq<u8>>,
    a2: Seq<Seq<u8>>,
    b2: Seq<Seq<u8>>,
    i: int,
)
    requires
        pre_master.len() == 48,
        master.len() == 48,
        a1.len() > 3,
        b1.len() > 3,
        a1[0] == "OpenVPN master secret".spec_bytes() + client_random1 + server_random1,
        b1[0] == a1[0],
        forall|j: int|
            0 < j < a1.len() ==> #[trigger] a1[j] == hmac_md5_of(pre_master.take(24), a1[j - 1])@,
        forall|j: int|
            0 < j < b1.len() ==> #[trigger] b1[j] == hmac_sha1_of(pre_master.skip(24), b1[j - 1])@,
        forall|j: int|
            0 <= j < 48 ==> #[trigger] master[j] == hmac_md5_of(
                pre_master.take(24),
                a1[j / 16 + 1] + a1[0],
            )@[j % 16] ^ hmac_sha1_of(pre_master.skip(24), b1[j / 20 + 1] + b1[0])@[j % 20],
        a2.len() > 16,
        b2.len() > 13,
        a2[0] == "OpenVPN key expansion".spec_bytes() + client_random2 + server_random2 + client_sid
            + server_sid,
        b2[0] == a2[0],
        forall|j: int|
            0 < j < a2.len() ==> #[trigger] a2[j] == hmac_md5_of(master.take(24), a2[j - 1])@,
        forall|j: int|
            0 < j < b2.len() ==> #[trigger] b2[j] == hmac_sha1_of(master.skip(24), b2[j - 1])@,
        0 <= i < 256,
    ensures
        key_data(
            pre_master,
            client_random1,
            server_random1,
            client_random2,
            server_random2,
            client_sid,
            server_sid,
        ).len() == 256,
        key_data(
            pre_master,
            client_random1,
            server_random1,
            client_random2,
            server_random2,
            client_sid,
            server_sid,
        )[i] == hmac_md5_of(master.take(24), a2[i / 16 + 1] + a2[0])@[i % 16] ^ hmac_sha1_of(
            master.skip(24),
            b2[i / 20 + 1] + b2[0],
        )@[i % 20],
{
    let label1 = "OpenVPN master secret".spec_bytes();
    let label2 = "OpenVPN key expansion".spec_bytes();
    let seed1 = client_random1 + server_random1;
    let seed2 = client_random2 + server_random2 + client_sid + server_sid;
    assert(a1[0] =~= label1 + seed1);
    assert(a2[0] =~= label2 + seed2);
    let computed = prf(pre_master, label1, seed1, 48);
    assert forall|j: int| 0 <= j < 48 implies #[trigger] master[j] == computed[j] by {
        law_prf(pre_master, label1, seed1, 48, a1, b1, j);
    }
    assert(master =~= computed);
    law_prf(master, label2, seed2, 256, a2, b2, i);
}

} // verus!
