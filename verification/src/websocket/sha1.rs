//! The SHA-1 digest, computed for the handshake accept key.  The
//! specification spells the algorithm out over byte sequences —
//! padding, message schedule, eighty rounds per block — and the code
//! is proved to compute exactly that.

use vstd::prelude::*;

verus! {

/// A left rotation of a 32-bit word.
pub open spec fn rotl(x: u32, n: u32) -> u32
    recommends
        0 < n < 32,
{
    (x << n) | (x >> (32 - n) as u32)
}

/// The big-endian 32-bit word at position `t` of a block.
pub open spec fn be32_word(c: Seq<u8>, t: int) -> u32 {
    ((c[4 * t] as u32) << 24) | ((c[4 * t + 1] as u32) << 16) | ((c[4 * t + 2] as u32) << 8) | (
    c[4 * t + 3] as u32)
}

/// The message schedule: the first sixteen words come from the block,
/// the rest by rotating earlier words together.
pub open spec fn w_word(c: Seq<u8>, t: int) -> u32
    decreases t,
{
    if t < 16 {
        be32_word(c, t)
    } else {
        rotl(w_word(c, t - 3) ^ w_word(c, t - 8) ^ w_word(c, t - 14) ^ w_word(c, t - 16), 1)
    }
}

/// The round function of each twenty-round stretch.
pub open spec fn sha1_f(t: int, b: u32, c: u32, d: u32) -> u32 {
    if t < 20 {
        (b & c) | (!b & d)
    } else if t < 40 {
        b ^ c ^ d
    } else if t < 60 {
        (b & c) | (b & d) | (c & d)
    } else {
        b ^ c ^ d
    }
}

/// The round constant of each twenty-round stretch.
pub open spec fn sha1_k(t: int) -> u32 {
    if t < 20 {
        0x5A827999
    } else if t < 40 {
        0x6ED9EBA1
    } else if t < 60 {
        0x8F1BBCDC
    } else {
        0xCA62C1D6
    }
}

/// One round applied to the five-word state.
pub open spec fn round_step(st: (u32, u32, u32, u32, u32), c: Seq<u8>, t: int) -> (
    u32,
    u32,
    u32,
    u32,
    u32,
) {
    let temp = rotl(st.0, 5).wrapping_add(sha1_f(t, st.1, st.2, st.3)).wrapping_add(
        st.4,
    ).wrapping_add(sha1_k(t)).wrapping_add(w_word(c, t));
    (temp, st.0, rotl(st.1, 30), st.2, st.3)
}

/// The state after the first `t` rounds of a block.
pub open spec fn rounds(st0: (u32, u32, u32, u32, u32), c: Seq<u8>, t: int) -> (
    u32,
    u32,
    u32,
    u32,
    u32,
)
    decreases t,
{
    if t <= 0 {
        st0
    } else {
        round_step(rounds(st0, c, t - 1), c, t - 1)
    }
}

/// The running hash after absorbing one 64-byte block.
pub open spec fn absorb(h: (u32, u32, u32, u32, u32), c: Seq<u8>) -> (u32, u32, u32, u32, u32) {
    let r = rounds(h, c, 80);
    (
        h.0.wrapping_add(r.0),
        h.1.wrapping_add(r.1),
        h.2.wrapping_add(r.2),
        h.3.wrapping_add(r.3),
        h.4.wrapping_add(r.4),
    )
}

/// The running hash after absorbing the first `k` blocks.
pub open spec fn absorb_blocks(h: (u32, u32, u32, u32, u32), msg: Seq<u8>, k: int) -> (
    u32,
    u32,
    u32,
    u32,
    u32,
)
    decreases k,
{
    if k <= 0 {
        h
    } else {
        absorb(absorb_blocks(h, msg, k - 1), msg.subrange(64 * (k - 1), 64 * k))
    }
}

/// How many zero bytes the padding inserts for a message of `l` bytes.
pub open spec fn pad_zero_count(l: nat) -> nat {
    let k = (l + 1) % 64;
    if k <= 56 {
        (56 - k) as nat
    } else {
        (120 - k) as nat
    }
}

/// The eight big-endian bytes of a 64-bit value.
pub open spec fn be64_bytes(v: u64) -> Seq<u8> {
    seq![
        (v / 0x100000000000000 % 256) as u8,
        (v / 0x1000000000000 % 256) as u8,
        (v / 0x10000000000 % 256) as u8,
        (v / 0x100000000 % 256) as u8,
        (v / 0x1000000 % 256) as u8,
        (v / 0x10000 % 256) as u8,
        (v / 0x100 % 256) as u8,
        (v % 256) as u8,
    ]
}

/// The padded message: the data, one `0x80` byte, zeros up to eight
/// bytes short of a block boundary, and the bit length.
pub open spec fn sha1_pad(msg: Seq<u8>) -> Seq<u8> {
    msg + seq![0x80u8] + Seq::new(pad_zero_count(msg.len()), |i: int| 0u8) + be64_bytes(
        (msg.len() * 8) as u64,
    )
}

/// The four big-endian bytes of a 32-bit word.
pub open spec fn be32_bytes(x: u32) -> Seq<u8> {
    seq![(x >> 24) as u8, (x >> 16) as u8, (x >> 8) as u8, x as u8]
}

/// The initial five-word state.
pub open spec fn sha1_init() -> (u32, u32, u32, u32, u32) {
    (0x67452301, 0xEFCDAB89, 0x98BADCFE, 0x10325476, 0xC3D2E1F0)
}

/// The twenty digest bytes of a message.
pub open spec fn sha1_of(msg: Seq<u8>) -> Seq<u8> {
    let p = sha1_pad(msg);
    let h = absorb_blocks(sha1_init(), p, p.len() as int / 64);
    be32_bytes(h.0) + be32_bytes(h.1) + be32_bytes(h.2) + be32_bytes(h.3) + be32_bytes(h.4)
}

/// The padded message fills whole 64-byte blocks.
proof fn lemma_pad_aligned(msg: Seq<u8>)
    ensures
        sha1_pad(msg).len() % 64 == 0,
        sha1_pad(msg).len() == msg.len() + 1 + pad_zero_count(msg.len()) + 8,
{
}

/// Appends the padding to a copy of the data.
fn pad_message(data: &[u8]) -> (r: Vec<u8>)
    requires
        data@.len() < 0x2000000000000000,
    ensures
        r@ == sha1_pad(data@),
{
    let dlen = data.len();
    let mut message: Vec<u8> = Vec::new();
    crate::text::push_bytes(&mut message, data);
    message.push(0x80);
    let k = (dlen % 64 + 1) % 64;
    proof {
        assert(k == (data@.len() + 1) % 64) by (nonlinear_arith)
            requires
                k == (data@.len() % 64 + 1) % 64,
        ;
    }
    let z: usize = if k <= 56 {
        56 - k
    } else {
        120 - k
    };
    for i in 0..z
        invariant
            message@ == data@ + seq![0x80u8] + Seq::new(i as nat, |j: int| 0u8),
    {
        message.push(0);
        proof {
            assert(message@ =~= data@ + seq![0x80u8] + Seq::new((i + 1) as nat, |j: int| 0u8));
        }
    }
    let bits: u64 = (dlen as u64) * 8;
    message.push((bits / 0x100000000000000 % 256) as u8);
    message.push((bits / 0x1000000000000 % 256) as u8);
    message.push((bits / 0x10000000000 % 256) as u8);
    message.push((bits / 0x100000000 % 256) as u8);
    message.push((bits / 0x1000000 % 256) as u8);
    message.push((bits / 0x10000 % 256) as u8);
    message.push((bits / 0x100 % 256) as u8);
    message.push((bits % 256) as u8);
    proof {
        assert(message@ =~= sha1_pad(data@));
    }
    message
}

/// The message schedule of one block.
fn schedule(chunk: &[u8]) -> (r: Vec<u32>)
    requires
        chunk@.len() == 64,
    ensures
        r@.len() == 80,
        forall|u: int| 0 <= u < 80 ==> r@[u] == w_word(chunk@, u),
{
    let mut w: Vec<u32> = Vec::new();
    for t in 0..16
        invariant
            chunk@.len() == 64,
            w@.len() == t,
            forall|u: int| 0 <= u < t ==> w@[u] == w_word(chunk@, u),
    {
        let word = ((chunk[4 * t] as u32) << 24) | ((chunk[4 * t + 1] as u32) << 16) | ((chunk[4
            * t + 2] as u32) << 8) | (chunk[4 * t + 3] as u32);
        w.push(word);
    }
    for t in 16..80
        invariant
            chunk@.len() == 64,
            w@.len() == t,
            16 <= t <= 80,
            forall|u: int| 0 <= u < t ==> w@[u] == w_word(chunk@, u),
    {
        let tmp = w[t - 3] ^ w[t - 8] ^ w[t - 14] ^ w[t - 16];
        let tmp = (tmp << 1) | (tmp >> 31);
        proof {
            assert(w_word(chunk@, t as int) == rotl(
                w_word(chunk@, t - 3) ^ w_word(chunk@, t - 8) ^ w_word(chunk@, t - 14) ^ w_word(
                    chunk@,
                    t - 16,
                ),
                1,
            ));
        }
        w.push(tmp);
    }
    w
}

/// Absorbs one 64-byte block into the running hash.
fn absorb_block(h: (u32, u32, u32, u32, u32), chunk: &[u8]) -> (r: (u32, u32, u32, u32, u32))
    requires
        chunk@.len() == 64,
    ensures
        r == absorb(h, chunk@),
{
    let w = schedule(chunk);
    let mut a = h.0;
    let mut b = h.1;
    let mut c = h.2;
    let mut d = h.3;
    let mut e = h.4;
    for t in 0..80
        invariant
            w@.len() == 80,
            chunk@.len() == 64,
            forall|u: int| 0 <= u < 80 ==> w@[u] == w_word(chunk@, u),
            (a, b, c, d, e) == rounds(h, chunk@, t as int),
    {
        let f: u32;
        let kc: u32;
        if t < 20 {
            f = (b & c) | (!b & d);
            kc = 0x5A827999;
        } else if t < 40 {
            f = b ^ c ^ d;
            kc = 0x6ED9EBA1;
        } else if t < 60 {
            f = (b & c) | (b & d) | (c & d);
            kc = 0x8F1BBCDC;
        } else {
            f = b ^ c ^ d;
            kc = 0xCA62C1D6;
        }
        let a5 = (a << 5) | (a >> 27);
        let temp = a5.wrapping_add(f).wrapping_add(e).wrapping_add(kc).wrapping_add(w[t]);
        e = d;
        d = c;
        c = (b << 30) | (b >> 2);
        b = a;
        a = temp;
        proof {
            assert((a, b, c, d, e) == round_step(rounds(h, chunk@, t as int), chunk@, t as int));
        }
    }
    (h.0.wrapping_add(a), h.1.wrapping_add(b), h.2.wrapping_add(c), h.3.wrapping_add(d),
    h.4.wrapping_add(e))
}

/// Appends the four big-endian bytes of a word.
fn push_be32(out: &mut Vec<u8>, x: u32)
    ensures
        final(out)@ == old(out)@ + be32_bytes(x),
{
    out.push((x >> 24) as u8);
    out.push((x >> 16) as u8);
    out.push((x >> 8) as u8);
    out.push(x as u8);
    proof {
        assert(final(out)@ =~= old(out)@ + be32_bytes(x));
    }
}

/// Computes the SHA-1 digest of the data.
pub fn sha1(data: &[u8]) -> (r: Vec<u8>)
    requires
        data@.len() < 0x2000000000000000,
    ensures
        r@ == sha1_of(data@),
        r@.len() == 20,
{
    let message = pad_message(data);
    proof {
        lemma_pad_aligned(data@);
    }
    let mlen = message.len();
    let nblocks = mlen / 64;
    let mut h: (u32, u32, u32, u32, u32) = (0x67452301, 0xEFCDAB89, 0x98BADCFE, 0x10325476,
    0xC3D2E1F0);
    for blk in 0..nblocks
        invariant
            message@ == sha1_pad(data@),
            mlen == message@.len(),
            mlen % 64 == 0,
            nblocks == mlen / 64,
            h == absorb_blocks(sha1_init(), message@, blk as int),
    {
        let chunk = crate::text::sub_bytes(message.as_slice(), 64 * blk, 64 * blk + 64);
        h = absorb_block(h, chunk.as_slice());
        proof {
            assert(chunk@ == message@.subrange(64 * blk as int, 64 * (blk + 1)));
            assert(h == absorb_blocks(sha1_init(), message@, blk + 1));
        }
    }
    proof {
        assert(nblocks as int == message@.len() as int / 64);
    }
    let mut digest: Vec<u8> = Vec::new();
    push_be32(&mut digest, h.0);
    push_be32(&mut digest, h.1);
    push_be32(&mut digest, h.2);
    push_be32(&mut digest, h.3);
    push_be32(&mut digest, h.4);
    proof {
        assert(digest@ =~= sha1_of(data@));
    }
    digest
}

} // verus!
