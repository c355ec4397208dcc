//! Base64 encoding, used for the handshake accept key.

use vstd::prelude::*;

verus! {

use crate::text::{ascii_view, all_ascii, ascii_to_string};

/// The alphabet byte of a six-bit value.
pub open spec fn b64_char(v: u8) -> u8
    recommends
        v < 64,
{
    if v < 26 {
        (65 + v) as u8
    } else if v < 52 {
        (71 + v) as u8
    } else if v < 62 {
        (v - 4) as u8
    } else if v == 62 {
        43
    } else {
        47
    }
}

/// The encoding of a byte sequence, three input bytes to four output
/// bytes, with `=` padding on a short final group.
pub open spec fn base64_of(s: Seq<u8>) -> Seq<u8>
    decreases s.len(),
{
    if s.len() == 0 {
        Seq::<u8>::empty()
    } else if s.len() == 1 {
        seq![b64_char(s[0] >> 2), b64_char((s[0] & 3) << 4), 61u8, 61u8]
    } else if s.len() == 2 {
        seq![
            b64_char(s[0] >> 2),
            b64_char(((s[0] & 3) << 4) | (s[1] >> 4)),
            b64_char((s[1] & 15) << 2),
            61u8,
        ]
    } else {
        seq![
            b64_char(s[0] >> 2),
            b64_char(((s[0] & 3) << 4) | (s[1] >> 4)),
            b64_char(((s[1] & 15) << 2) | (s[2] >> 6)),
            b64_char(s[2] & 63),
        ] + base64_of(s.skip(3))
    }
}

/// Every emitted byte is ASCII.
pub proof fn lemma_base64_ascii(s: Seq<u8>)
    ensures
        all_ascii(base64_of(s)),
    decreases s.len(),
{
    assert(forall|x: u8| x >> 2 < 64) by (bit_vector);
    assert(forall|x: u8, y: u8| ((x & 3) << 4) | (y >> 4) < 64) by (bit_vector);
    assert(forall|x: u8, y: u8| ((x & 15) << 2) | (y >> 6) < 64) by (bit_vector);
    assert(forall|x: u8| x & 63 < 64) by (bit_vector);
    assert(forall|v: u8| v < 64 ==> b64_char(v) < 0x80);
    if s.len() > 3 {
        lemma_base64_ascii(s.skip(3));
    }
}

/// The alphabet byte of a six-bit value.
fn b64_byte(v: u8) -> (r: u8)
    requires
        v < 64,
    ensures
        r == b64_char(v),
{
    if v < 26 {
        65 + v
    } else if v < 52 {
        71 + v
    } else if v < 62 {
        v - 4
    } else if v == 62 {
        43
    } else {
        47
    }
}

/// Encodes the input in base64.
pub fn encode(input: &[u8]) -> (r: String)
    ensures
        r@ == ascii_view(base64_of(input@)),
{
    proof {
        assert(forall|x: u8| x >> 2 < 64) by (bit_vector);
        assert(forall|x: u8, y: u8| ((x & 3) << 4) | (y >> 4) < 64) by (bit_vector);
        assert(forall|x: u8, y: u8| ((x & 15) << 2) | (y >> 6) < 64) by (bit_vector);
        assert(forall|x: u8| x & 63 < 64) by (bit_vector);
        assert(forall|x: u8| (x & 3) << 4 < 64) by (bit_vector);
        assert(forall|x: u8| (x & 15) << 2 < 64) by (bit_vector);
    }
    let mut out: Vec<u8> = Vec::new();
    let mut i: usize = 0;
    let n = input.len();
    proof {
        assert(input@.skip(0) =~= input@);
    }
    while i < n
        invariant
            0 <= i <= n,
            n == input@.len(),
            base64_of(input@) == out@ + base64_of(input@.skip(i as int)),
            forall|x: u8| x >> 2 < 64,
            forall|x: u8, y: u8| ((x & 3) << 4) | (y >> 4) < 64,
            forall|x: u8, y: u8| ((x & 15) << 2) | (y >> 6) < 64,
            forall|x: u8| x & 63 < 64,
            forall|x: u8| (x & 3) << 4 < 64,
            forall|x: u8| (x & 15) << 2 < 64,
        decreases n - i,
    {
        let ghost rest = input@.skip(i as int);
        let ghost before = out@;
        let c0 = input[i];
        proof {
            assert(rest[0] == input@[i as int]);
        }
        if i + 1 == n {
            out.push(b64_byte(c0 >> 2));
            out.push(b64_byte((c0 & 3) << 4));
            out.push(61);
            out.push(61);
            proof {
                assert(rest.len() == 1);
                assert(out@ =~= before + base64_of(rest));
                assert(input@.skip(n as int) =~= Seq::<u8>::empty());
            }
            i = n;
        } else if i + 2 == n {
            let c1 = input[i + 1];
            proof {
                assert(rest[1] == input@[i + 1]);
            }
            out.push(b64_byte(c0 >> 2));
            out.push(b64_byte(((c0 & 3) << 4) | (c1 >> 4)));
            out.push(b64_byte((c1 & 15) << 2));
            out.push(61);
            proof {
                assert(rest.len() == 2);
                assert(out@ =~= before + base64_of(rest));
                assert(input@.skip(n as int) =~= Seq::<u8>::empty());
            }
            i = n;
        } else {
            let c1 = input[i + 1];
            let c2 = input[i + 2];
            proof {
                assert(rest[1] == input@[i + 1]);
                assert(rest[2] == input@[i + 2]);
            }
            out.push(b64_byte(c0 >> 2));
            out.push(b64_byte(((c0 & 3) << 4) | (c1 >> 4)));
            out.push(b64_byte(((c1 & 15) << 2) | (c2 >> 6)));
            out.push(b64_byte(c2 & 63));
            proof {
                assert(rest.len() >= 3);
                assert(rest.skip(3) =~= input@.skip(i + 3));
                assert(out@ =~= before + seq![
                    b64_char(rest[0] >> 2),
                    b64_char(((rest[0] & 3) << 4) | (rest[1] >> 4)),
                    b64_char(((rest[1] & 15) << 2) | (rest[2] >> 6)),
                    b64_char(rest[2] & 63),
                ]);
                assert(before + base64_of(rest) =~= out@ + base64_of(input@.skip(i + 3)));
            }
            i = i + 3;
        }
    }
    proof {
        assert(input@.skip(i as int) =~= Seq::<u8>::empty());
        assert(out@ =~= base64_of(input@));
        lemma_base64_ascii(input@);
    }
    ascii_to_string(out)
}

} // verus!
