//! The frame codec: reading one client frame from captured bytes, and
//! rendering one server frame to bytes.  Client frames are masked;
//! server frames are not.

use vstd::prelude::*;

verus! {

use crate::websocket::consts::MAX_RECV_FRAME_SIZE;
use crate::websocket::error::ProtocolError;
use crate::websocket::opcode::{OpCode, opcode_of, opcode_num, spec_is_control};
use crate::text::sub_bytes;

/// One parsed frame.
#[derive(Debug, Clone, PartialEq, Eq)]
pub struct WebsocketFrame {
    pub fin: bool,
    pub opcode: OpCode,
    pub payload: Vec<u8>,
}

/// A frame to be written, borrowing its payload.
#[derive(Debug, Clone)]
pub struct WebsocketFrameRef<'payload> {
    pub fin: bool,
    pub opcode: OpCode,
    pub payload: &'payload [u8],
}

/// The payload unmasked: each byte XORed with the key, cycled by four.
pub open spec fn xor_seq(p: Seq<u8>, k: Seq<u8>) -> Seq<u8> {
    Seq::new(p.len(), |i: int| (p[i] ^ k[i % 4]) as u8)
}

/// Masking twice with one key gives the payload back.
pub proof fn lemma_mask_twice(p: Seq<u8>, k: Seq<u8>)
    requires
        k.len() == 4,
    ensures
        xor_seq(xor_seq(p, k), k) == p,
{
    assert(forall|x: u8, y: u8| #[trigger] ((x ^ y) ^ y) == x) by (bit_vector);
    assert(xor_seq(xor_seq(p, k), k) =~= p);
}

/// A big-endian 16-bit value.
pub open spec fn be16(hi: u8, lo: u8) -> nat {
    (hi * 256 + lo) as nat
}

/// The big-endian value of the first `k` bytes of `b`.
pub open spec fn partial_be(b: Seq<u8>, k: int) -> nat
    decreases k,
{
    if k <= 0 {
        0
    } else {
        (partial_be(b, k - 1) * 256 + b[k - 1]) as nat
    }
}

/// A big-endian 64-bit value from eight bytes.
pub open spec fn be64_val(b: Seq<u8>) -> nat {
    partial_be(b, 8)
}

/// The count of extended-length bytes a first length byte announces.
pub open spec fn ext_len_of(len7: u8) -> nat {
    if len7 <= 125 {
        0
    } else if len7 == 126 {
        2
    } else {
        8
    }
}

/// A frame as mathematical values.
pub struct FrameModel {
    pub fin: bool,
    pub opcode: OpCode,
    pub payload: Seq<u8>,
}

/// What reading a frame from a byte prefix yields: a request for more
/// bytes (with the total count then needed), or a frame and how many
/// bytes it occupied.
pub enum FrameStep {
    NeedMore(nat),
    Done(FrameModel, nat),
}

/// What parsing the byte prefix yields, check for check as the parser
/// works: opcode, reserved bits and mask from the first two bytes,
/// then the extended length, the control-size and total-size bounds,
/// the masking key, and the unmasked payload.
pub open spec fn spec_parse_frame(b: Seq<u8>) -> Result<FrameStep, ProtocolError> {
    if b.len() < 2 {
        Ok(FrameStep::NeedMore(2))
    } else {
        let b0 = b[0];
        let b1 = b[1];
        match opcode_of(b0 & 0x0F) {
            None => Err(ProtocolError::InvalidOpcode(b0 & 0x0F)),
            Some(op) => if b0 & 0x70 != 0 {
                Err(ProtocolError::ReservedBitsSet)
            } else if b1 & 0x80 == 0 {
                Err(ProtocolError::UnmaskedClientMessage)
            } else {
                let len7 = b1 & 0x7F;
                let ext = ext_len_of(len7);
                if b.len() < 2 + ext {
                    Ok(FrameStep::NeedMore(2 + ext))
                } else {
                    let plen: nat = if len7 <= 125 {
                        len7 as nat
                    } else if len7 == 126 {
                        be16(b[2], b[3])
                    } else {
                        be64_val(b.subrange(2, 10))
                    };
                    if spec_is_control(op) && plen > 125 {
                        Err(ProtocolError::ControlPayloadTooLarge(plen as u64))
                    } else if b.len() < 2 + ext + 4 {
                        Ok(FrameStep::NeedMore(2 + ext + 4))
                    } else if plen > MAX_RECV_FRAME_SIZE as nat {
                        Err(ProtocolError::PayloadTooLarge(plen as u64))
                    } else {
                        let hdr = 2 + ext + 4;
                        let total = hdr + plen;
                        if b.len() < total {
                            Ok(FrameStep::NeedMore(total))
                        } else {
                            let key = b.subrange(2 + ext as int, 2 + ext as int + 4);
                            let payload = xor_seq(
                                b.subrange(hdr as int, total as int),
                                key,
                            );
                            Ok(
                                FrameStep::Done(
                                    FrameModel { fin: b0 & 0x80 != 0, opcode: op, payload },
                                    total,
                                ),
                            )
                        }
                    }
                }
            },
        }
    }
}

/// What the frame reader hands back.
#[derive(Debug, PartialEq, Eq)]
pub enum FrameParse {
    /// Not enough bytes yet; the total count the frame needs so far.
    NeedMore { needed: u64 },
    /// A whole frame, and how many bytes of the input it occupied.
    Frame { frame: WebsocketFrame, consumed: usize },
}

/// Unmasks a payload in place.
pub fn xor(payload: &mut Vec<u8>, key: &[u8])
    requires
        key@.len() == 4,
    ensures
        final(payload)@ == xor_seq(old(payload)@, key@),
{
    let n = payload.len();
    for i in 0..n
        invariant
            n == payload@.len(),
            n == old(payload)@.len(),
            key@.len() == 4,
            forall|j: int| i <= j < n ==> payload@[j] == old(payload)@[j],
            forall|j: int| 0 <= j < i ==> payload@[j] == (old(payload)@[j] ^ key@[j % 4]) as u8,
    {
        let b = payload[i] ^ key[i % 4];
        payload.set(i, b);
    }
    proof {
        assert(payload@ =~= xor_seq(old(payload)@, key@));
    }
}

impl WebsocketFrame {
    /// Reads one client frame from the start of the captured bytes.
    ///
    /// A prefix too short to finish the frame asks for more bytes; a
    /// malformed prefix is the protocol error the peer committed.
    pub fn parse(bytes: &[u8]) -> (r: Result<FrameParse, ProtocolError>)
        ensures
            match (r, spec_parse_frame(bytes@)) {
                (Ok(FrameParse::NeedMore { needed }), Ok(FrameStep::NeedMore(n))) => needed == n,
                (Ok(FrameParse::Frame { frame, consumed }), Ok(FrameStep::Done(fm, c))) => {
                    &&& frame.fin == fm.fin
                    &&& frame.opcode == fm.opcode
                    &&& frame.payload@ == fm.payload
                    &&& consumed == c
                },
                (Err(e1), Err(e2)) => e1 == e2,
                _ => false,
            },
    {
        let blen = bytes.len();
        if blen < 2 {
            return Ok(FrameParse::NeedMore { needed: 2 });
        }
        let b0 = bytes[0];
        let b1 = bytes[1];
        let op = match OpCode::parse(b0 & 0x0F) {
            Ok(op) => op,
            Err(e) => {
                return Err(e);
            },
        };
        if b0 & 0x70 != 0 {
            return Err(ProtocolError::ReservedBitsSet);
        }
        if b1 & 0x80 == 0 {
            return Err(ProtocolError::UnmaskedClientMessage);
        }
        let len7 = b1 & 0x7F;
        let ext: usize = if len7 <= 125 {
            0
        } else if len7 == 126 {
            2
        } else {
            8
        };
        if blen < 2 + ext {
            return Ok(FrameParse::NeedMore { needed: 2 + ext as u64 });
        }
        let plen: u64 = if len7 <= 125 {
            len7 as u64
        } else if len7 == 126 {
            (bytes[2] as u64) * 256 + (bytes[3] as u64)
        } else {
            let mut v: u64 = 0;
            let mut k: usize = 2;
            while k < 10
                invariant
                    2 <= k <= 10,
                    bytes@.len() >= 10,
                    v as nat == partial_be(bytes@.subrange(2, 10), k - 2),
                    v < pow256(k - 2),
                decreases 10 - k,
            {
                proof {
                    lemma_pow256_vals();
                    assert(bytes@.subrange(2, 10)[k - 2] == bytes@[k as int]);
                }
                v = v * 256 + bytes[k] as u64;
                k = k + 1;
            }
            proof {
                assert(partial_be(bytes@.subrange(2, 10), 8) == be64_val(
                    bytes@.subrange(2, 10),
                ));
            }
            v
        };
        proof {
            if len7 > 126 {
                assert(ext_len_of(len7) == 8);
            }
        }
        if op.is_control() && plen > 125 {
            return Err(ProtocolError::ControlPayloadTooLarge(plen));
        }
        if blen < 2 + ext + 4 {
            return Ok(FrameParse::NeedMore { needed: (2 + ext + 4) as u64 });
        }
        if plen > MAX_RECV_FRAME_SIZE {
            return Err(ProtocolError::PayloadTooLarge(plen));
        }
        let hdr: usize = 2 + ext + 4;
        let total: u64 = hdr as u64 + plen;
        if (blen as u64) < total {
            return Ok(FrameParse::NeedMore { needed: total });
        }
        let consumed: usize = total as usize;
        let key = sub_bytes(bytes, 2 + ext, 2 + ext + 4);
        let mut payload = sub_bytes(bytes, hdr, consumed);
        xor(&mut payload, key.as_slice());
        let frame = WebsocketFrame { fin: b0 & 0x80 != 0, opcode: op, payload };
        Ok(FrameParse::Frame { frame, consumed })
    }
}

/// The powers of 256 written out, up to eight bytes.
pub proof fn lemma_pow256_vals()
    ensures
        pow256(0) == 1,
        pow256(1) == 0x100,
        pow256(2) == 0x10000,
        pow256(3) == 0x1000000,
        pow256(4) == 0x100000000,
        pow256(5) == 0x10000000000,
        pow256(6) == 0x1000000000000,
        pow256(7) == 0x100000000000000,
        pow256(8) == 0x10000000000000000,
{
    assert(pow256(0) == 1);
    assert(pow256(1) == 0x100);
    assert(pow256(2) == 0x10000);
    assert(pow256(3) == 0x1000000);
    assert(pow256(4) == 0x100000000);
    assert(pow256(5) == 0x10000000000);
    assert(pow256(6) == 0x1000000000000);
    assert(pow256(7) == 0x100000000000000);
    assert(pow256(8) == 0x10000000000000000);
}

/// Powers of 256 up to eight bytes.
pub open spec fn pow256(k: int) -> nat
    decreases k,
{
    if k <= 0 {
        1
    } else {
        256 * pow256(k - 1)
    }
}


/// The length field the writer emits for a payload of `n` bytes: the
/// seven-bit form, the 16-bit form behind `126`, or the 64-bit form
/// behind `127`, whichever is smallest.
pub open spec fn len_bytes(n: nat) -> Seq<u8> {
    if n <= 125 {
        seq![n as u8]
    } else if n <= 0xFFFF {
        seq![126u8, (n / 256) as u8, (n % 256) as u8]
    } else {
        seq![
            127u8,
            (n / 0x100000000000000 % 256) as u8,
            (n / 0x1000000000000 % 256) as u8,
            (n / 0x10000000000 % 256) as u8,
            (n / 0x100000000 % 256) as u8,
            (n / 0x1000000 % 256) as u8,
            (n / 0x10000 % 256) as u8,
            (n / 0x100 % 256) as u8,
            (n % 256) as u8,
        ]
    }
}

/// The payload lengths at the small boundaries pick each encoding.
pub proof fn lemma_length_encodings(n: nat)
    ensures
        n <= 125 ==> len_bytes(n).len() == 1,
        126 <= n <= 65535 ==> len_bytes(n).len() == 3,
        n > 65535 ==> len_bytes(n).len() == 9,
{
}

/// The first header byte: the opcode with the FIN bit on top.
pub open spec fn first_byte(fin: bool, op: OpCode) -> u8 {
    if fin {
        (opcode_num(op) + 128) as u8
    } else {
        opcode_num(op)
    }
}

/// Every byte the writer emits for one unmasked server frame.
pub open spec fn frame_render(fin: bool, op: OpCode, payload: Seq<u8>) -> Seq<u8> {
    seq![first_byte(fin, op)] + len_bytes(payload.len()) + payload
}

impl<'payload> WebsocketFrameRef<'payload> {
    /// Renders this frame unmasked, as the server sends it: two header
    /// bytes, the extended length when one is needed, and the payload.
    pub fn write(&self) -> (r: Vec<u8>)
        ensures
            r@ == frame_render(self.fin, self.opcode, self.payload@),
    {
        let mut out: Vec<u8> = Vec::new();
        let b0 = if self.fin {
            self.opcode.value() + 128
        } else {
            self.opcode.value()
        };
        out.push(b0);
        let n = self.payload.len();
        if n <= 125 {
            out.push(n as u8);
        } else if n <= 0xFFFF {
            out.push(126);
            out.push((n / 256) as u8);
            out.push((n % 256) as u8);
        } else {
            let v = n as u64;
            out.push(127);
            out.push((v / 0x100000000000000 % 256) as u8);
            out.push((v / 0x1000000000000 % 256) as u8);
            out.push((v / 0x10000000000 % 256) as u8);
            out.push((v / 0x100000000 % 256) as u8);
            out.push((v / 0x1000000 % 256) as u8);
            out.push((v / 0x10000 % 256) as u8);
            out.push((v / 0x100 % 256) as u8);
            out.push((v % 256) as u8);
        }
        crate::text::push_bytes(&mut out, self.payload);
        proof {
            assert(out@ =~= frame_render(self.fin, self.opcode, self.payload@));
        }
        out
    }
}


/// The eight division bytes of a 64-bit value spell it back big-endian.
proof fn lemma_be64_division_bytes(n: u64)
    ensures
        be64_val(
            seq![
                (n / 0x100000000000000 % 256) as u8,
                (n / 0x1000000000000 % 256) as u8,
                (n / 0x10000000000 % 256) as u8,
                (n / 0x100000000 % 256) as u8,
                (n / 0x1000000 % 256) as u8,
                (n / 0x10000 % 256) as u8,
                (n / 0x100 % 256) as u8,
                (n % 256) as u8,
            ],
        ) == n,
{
    let b = seq![
        (n / 0x100000000000000 % 256) as u8,
        (n / 0x1000000000000 % 256) as u8,
        (n / 0x10000000000 % 256) as u8,
        (n / 0x100000000 % 256) as u8,
        (n / 0x1000000 % 256) as u8,
        (n / 0x10000 % 256) as u8,
        (n / 0x100 % 256) as u8,
        (n % 256) as u8,
    ];
    let q = |k: int| -> int {
        if k == 0 { n as int / 0x10000000000000000 }
        else if k == 1 { n as int / 0x100000000000000 }
        else if k == 2 { n as int / 0x1000000000000 }
        else if k == 3 { n as int / 0x10000000000 }
        else if k == 4 { n as int / 0x100000000 }
        else if k == 5 { n as int / 0x1000000 }
        else if k == 6 { n as int / 0x10000 }
        else if k == 7 { n as int / 0x100 }
        else { n as int }
    };
    assert(q(0) == 0);
    assert forall|k: int| 1 <= k <= 8 implies q(k - 1) == #[trigger] q(k) / 256 by {
        let d: int = if k == 1 { 0x100000000000000 } else if k == 2 { 0x1000000000000 }
            else if k == 3 { 0x10000000000 } else if k == 4 { 0x100000000 }
            else if k == 5 { 0x1000000 } else if k == 6 { 0x10000 }
            else if k == 7 { 0x100 } else { 1 };
        if k == 8 {
        } else {
            vstd::arithmetic::div_mod::lemma_div_denominator(n as int, d, 256);
        }
    }
    assert forall|k: int| 1 <= k <= 8 implies partial_be(b, k) == #[trigger] q(k) by {
        lemma_partial_be_q(b, n, k);
    }
    assert(partial_be(b, 8) == q(8));
}

/// One step of the correspondence between the division bytes and the
/// running big-endian value.
proof fn lemma_partial_be_q(b: Seq<u8>, n: u64, k: int)
    requires
        1 <= k <= 8,
        b == seq![
            (n / 0x100000000000000 % 256) as u8,
            (n / 0x1000000000000 % 256) as u8,
            (n / 0x10000000000 % 256) as u8,
            (n / 0x100000000 % 256) as u8,
            (n / 0x1000000 % 256) as u8,
            (n / 0x10000 % 256) as u8,
            (n / 0x100 % 256) as u8,
            (n % 256) as u8,
        ],
    ensures
        partial_be(b, k) as int == (if k == 1 { n as int / 0x100000000000000 }
            else if k == 2 { n as int / 0x1000000000000 }
            else if k == 3 { n as int / 0x10000000000 }
            else if k == 4 { n as int / 0x100000000 }
            else if k == 5 { n as int / 0x1000000 }
            else if k == 6 { n as int / 0x10000 }
            else if k == 7 { n as int / 0x100 }
            else { n as int }),
    decreases k,
{
    let dk: int = if k == 1 { 0x100000000000000 } else if k == 2 { 0x1000000000000 }
        else if k == 3 { 0x10000000000 } else if k == 4 { 0x100000000 }
        else if k == 5 { 0x1000000 } else if k == 6 { 0x10000 }
        else if k == 7 { 0x100 } else { 1 };
    let qk = n as int / dk;
    if k > 1 {
        lemma_partial_be_q(b, n, k - 1);
    }
    if k < 8 {
        vstd::arithmetic::div_mod::lemma_div_denominator(n as int, dk, 256);
    }
    assert(b[k - 1] as int == qk % 256);
    assert(qk == 256 * (qk / 256) + qk % 256) by {
        vstd::arithmetic::div_mod::lemma_fundamental_div_mod(qk, 256);
    }
}

/// Every byte of one masked client frame: the same header with the
/// mask bit set, the key, and the payload masked with it.
pub open spec fn client_frame_bytes(fin: bool, op: OpCode, payload: Seq<u8>, key: Seq<u8>)
    -> Seq<u8> {
    let lb = len_bytes(payload.len());
    seq![first_byte(fin, op)] + seq![(lb[0] + 128) as u8] + lb.skip(1) + key + xor_seq(
        payload,
        key,
    )
}

/// Reading back a masked frame gives the frame that was sent: for any
/// masking key and any payload the receiver accepts, the parser takes
/// the client rendering whole and returns the same FIN flag, opcode
/// and payload.
pub proof fn lemma_frame_round_trip(fin: bool, op: OpCode, payload: Seq<u8>, key: Seq<u8>)
    requires
        key.len() == 4,
        payload.len() <= MAX_RECV_FRAME_SIZE,
        spec_is_control(op) ==> payload.len() <= 125,
    ensures
        ({
            let c = client_frame_bytes(fin, op, payload, key);
            spec_parse_frame(c) == Ok::<FrameStep, ProtocolError>(
                FrameStep::Done(
                    FrameModel { fin, opcode: op, payload },
                    c.len() as nat,
                ),
            )
        }),
{
    let n = payload.len() as nat;
    let v = opcode_num(op);
    let c = client_frame_bytes(fin, op, payload, key);
    let lb = len_bytes(n);
    let b0 = first_byte(fin, op);
    assert(v <= 0xA);
    assert(b0 & 0x0F == v && b0 & 0x70 == 0 && (if fin {
        b0 & 0x80 != 0
    } else {
        b0 & 0x80 == 0
    })) by (bit_vector)
        requires
            v <= 0xA,
            b0 == (if fin {
                (v + 128) as u8
            } else {
                v
            }),
    ;
    assert(opcode_of(v) == Some(op));
    let l0 = lb[0];
    let m0 = (l0 + 128) as u8;
    assert(l0 <= 127);
    assert(m0 & 0x80 != 0 && m0 & 0x7F == l0) by (bit_vector)
        requires
            l0 <= 127,
            m0 == (l0 + 128) as u8,
    ;
    assert(c[0] == b0);
    assert(c[1] == m0);
    if n <= 125 {
        assert(lb =~= seq![n as u8]);
        assert(lb.skip(1) =~= Seq::<u8>::empty());
        assert(c.len() == 6 + n);
        assert(c[1] & 0x7F == n);
        assert(ext_len_of((n as u8)) == 0);
        assert(c.subrange(2, 6) =~= key);
        assert(c.subrange(6, c.len() as int) =~= xor_seq(payload, key));
        lemma_mask_twice(payload, key);
        assert(xor_seq(c.subrange(6, c.len() as int), c.subrange(2, 6)) == payload);
    } else if n <= 0xFFFF {
        assert(lb =~= seq![126u8, (n / 256) as u8, (n % 256) as u8]);
        assert(lb.skip(1) =~= seq![(n / 256) as u8, (n % 256) as u8]);
        assert(c.len() == 8 + n);
        assert(c[1] & 0x7F == 126);
        assert(c[2] == (n / 256) as u8);
        assert(c[3] == (n % 256) as u8);
        assert(n / 256 <= 255);
        assert(be16((n / 256) as u8, (n % 256) as u8) == n) by {
            assert(n == 256 * (n / 256) + n % 256);
        }
        assert(!spec_is_control(op));
        assert(n <= MAX_RECV_FRAME_SIZE as nat);
        assert(c.subrange(4, 8) =~= key);
        assert(c.subrange(8, c.len() as int) =~= xor_seq(payload, key));
        lemma_mask_twice(payload, key);
        assert(xor_seq(c.subrange(8, c.len() as int), c.subrange(4, 8)) == payload);
    } else {
        let n64 = n as u64;
        let db = seq![
            (n64 / 0x100000000000000 % 256) as u8,
            (n64 / 0x1000000000000 % 256) as u8,
            (n64 / 0x10000000000 % 256) as u8,
            (n64 / 0x100000000 % 256) as u8,
            (n64 / 0x1000000 % 256) as u8,
            (n64 / 0x10000 % 256) as u8,
            (n64 / 0x100 % 256) as u8,
            (n64 % 256) as u8,
        ];
        assert(lb =~= seq![127u8] + db);
        assert(lb.skip(1) =~= db);
        assert(c.len() == 14 + n);
        assert(c[1] & 0x7F == 127);
        assert(c.subrange(2, 10) =~= db);
        lemma_be64_division_bytes(n64);
        assert(be64_val(c.subrange(2, 10)) == n);
        assert(!spec_is_control(op));
        assert(n <= MAX_RECV_FRAME_SIZE as nat);
        assert(c.subrange(10, 14) =~= key);
        assert(c.subrange(14, c.len() as int) =~= xor_seq(payload, key));
        lemma_mask_twice(payload, key);
        assert(xor_seq(c.subrange(14, c.len() as int), c.subrange(10, 14)) == payload);
    }
}

} // verus!
