//! RFC 6455 frame serialization and parsing, and payload masking.

use vstd::prelude::*;

use crate::types::{MaskKey, OpCode, ProtocolError, SimplifiedHeader, WsError};
use crate::stream::ReadStream;

verus! {

// ---------------------------------------------------------------------------
// Masking
// ---------------------------------------------------------------------------

/// The masked form of `data` under `key`: byte `i` becomes
/// `data[i] XOR key[i mod 4]`.
pub open spec fn mask_seq(data: Seq<u8>, key: MaskKey) -> Seq<u8> {
    Seq::new(data.len(), |i: int| data[i] ^ key.byte_at(i))
}

/// Masking is involutive: applying the same key twice restores the payload.
pub proof fn lemma_mask_involutive(data: Seq<u8>, key: MaskKey)
    ensures
        mask_seq(mask_seq(data, key), key) == data,
{
    let twice = mask_seq(mask_seq(data, key), key);
    assert forall|i: int| 0 <= i < data.len() implies twice[i] == data[i] by {
        let d = data[i];
        let k = key.byte_at(i);
        assert((d ^ k) ^ k == d) by (bit_vector);
    }
    assert(twice =~= data);
}

/// Apply `key` to `data` in place.  The same routine masks and unmasks.
pub fn apply_mask(data: &mut Vec<u8>, key: MaskKey)
    ensures
        final(data)@ == mask_seq(old(data)@, key),
{
    let n = data.len();
    let mut i: usize = 0;
    while i < n
        invariant
            n == old(data)@.len(),
            data@.len() == n,
            i <= n,
            forall|j: int| 0 <= j < i ==> data@[j] == mask_seq(old(data)@, key)[j],
            forall|j: int| i <= j < n ==> data@[j] == old(data)@[j],
        decreases n - i,
    {
        let r = i % 4;
        let kb = if r == 0 {
            key.b0
        } else if r == 1 {
            key.b1
        } else if r == 2 {
            key.b2
        } else {
            key.b3
        };
        let b = data[i];
        data.set(i, b ^ kb);
        proof {
            assert(kb == key.byte_at(i as int));
        }
        i = i + 1;
    }
    proof {
        assert(final(data)@ =~= mask_seq(old(data)@, key));
    }
}

// ---------------------------------------------------------------------------
// Header encoding
// ---------------------------------------------------------------------------

/// First header byte: FIN, RSV1, RSV2, RSV3 and the opcode.
pub open spec fn spec_byte0(h: SimplifiedHeader) -> u8 {
    ((if h.fin {
        128int
    } else {
        0int
    }) + (if h.rsv1 {
        64int
    } else {
        0int
    }) + (if h.rsv2 {
        32int
    } else {
        0int
    }) + (if h.rsv3 {
        16int
    } else {
        0int
    }) + h.code.spec_value()) as u8
}

/// The seven-bit length field: the payload length when it fits, else the
/// marker for a 16-bit or 64-bit extended length.
pub open spec fn spec_len7(len: u64) -> u8 {
    if len < 126 {
        len as u8
    } else if len <= 65535 {
        126
    } else {
        127
    }
}

/// Second header byte: the MASK bit and the seven-bit length field.
pub open spec fn spec_byte1(masked: bool, len: u64) -> u8 {
    ((if masked {
        128int
    } else {
        0int
    }) + spec_len7(len)) as u8
}

/// The big-endian extended length bytes: empty, two, or eight of them.
pub open spec fn spec_ext_len(len: u64) -> Seq<u8> {
    if len < 126 {
        Seq::<u8>::empty()
    } else if len <= 65535 {
        seq![(len / 256) as u8, (len % 256) as u8]
    } else {
        seq![
            (len / 0x100000000000000) as u8,
            ((len / 0x1000000000000) % 256) as u8,
            ((len / 0x10000000000) % 256) as u8,
            ((len / 0x100000000) % 256) as u8,
            ((len / 0x1000000) % 256) as u8,
            ((len / 0x10000) % 256) as u8,
            ((len / 0x100) % 256) as u8,
            (len % 256) as u8,
        ]
    }
}

/// A complete header: two fixed bytes, the extended length, then the mask key.
/// The minimum-length form is always used.
pub open spec fn spec_header_bytes(h: SimplifiedHeader, mask: Option<MaskKey>, len: u64) -> Seq<
    u8,
> {
    seq![spec_byte0(h), spec_byte1(mask is Some, len)] + spec_ext_len(len) + (match mask {
        Some(k) => k.bytes(),
        None => Seq::<u8>::empty(),
    })
}

/// A complete frame: the header followed by the payload, masked when a key is
/// present.  `payload` is the logical (unmasked) payload.
pub open spec fn spec_frame_wire(h: SimplifiedHeader, mask: Option<MaskKey>, payload: Seq<u8>) -> Seq<
    u8,
> {
    spec_header_bytes(h, mask, payload.len() as u64) + (match mask {
        Some(k) => mask_seq(payload, k),
        None => payload,
    })
}

/// Build the minimum-length header for a frame.
pub fn ctor_header(
    fin: bool,
    rsv1: bool,
    rsv2: bool,
    rsv3: bool,
    mask: Option<MaskKey>,
    code: OpCode,
    payload_len: u64,
) -> (r: Vec<u8>)
    ensures
        r@ == spec_header_bytes(SimplifiedHeader { fin, rsv1, rsv2, rsv3, code }, mask, payload_len),
{
    let ghost h = SimplifiedHeader { fin, rsv1, rsv2, rsv3, code };
    let mut out: Vec<u8> = Vec::new();
    let b0: u8 = (if fin {
        128u8
    } else {
        0u8
    }) + (if rsv1 {
        64u8
    } else {
        0u8
    }) + (if rsv2 {
        32u8
    } else {
        0u8
    }) + (if rsv3 {
        16u8
    } else {
        0u8
    }) + code.value();
    out.push(b0);
    let len7: u8 = if payload_len < 126 {
        payload_len as u8
    } else if payload_len <= 65535 {
        126
    } else {
        127
    };
    let b1: u8 = (if mask.is_some() {
        128u8
    } else {
        0u8
    }) + len7;
    out.push(b1);
    if payload_len < 126 {
        // no extended length bytes
    } else if payload_len <= 65535 {
        out.push((payload_len / 256) as u8);
        out.push((payload_len % 256) as u8);
    } else {
        out.push((payload_len / 0x100000000000000) as u8);
        out.push(((payload_len / 0x1000000000000) % 256) as u8);
        out.push(((payload_len / 0x10000000000) % 256) as u8);
        out.push(((payload_len / 0x100000000) % 256) as u8);
        out.push(((payload_len / 0x1000000) % 256) as u8);
        out.push(((payload_len / 0x10000) % 256) as u8);
        out.push(((payload_len / 0x100) % 256) as u8);
        out.push((payload_len % 256) as u8);
    }
    match mask {
        Some(k) => {
            out.push(k.b0);
            out.push(k.b1);
            out.push(k.b2);
            out.push(k.b3);
        },
        None => {},
    }
    proof {
        assert(out@ =~= spec_header_bytes(h, mask, payload_len));
    }
    out
}

// ---------------------------------------------------------------------------
// Parsing
// ---------------------------------------------------------------------------

/// What the parser finds at the head of the input.
pub enum ParseResult {
    /// Not enough bytes for a complete frame.
    Incomplete,
    /// A malformed frame; the error the codec must surface.
    Bad { close_code: u16, error: ProtocolError },
    /// One complete frame: its header, its mask key, its logical (unmasked)
    /// payload, and how many input bytes it occupies.
    Frame { header: SimplifiedHeader, mask: Option<MaskKey>, payload: Seq<u8>, used: int },
}

/// Big-endian value of two bytes.
pub open spec fn spec_be16(s: Seq<u8>) -> int {
    s[0] * 256 + s[1]
}

/// Big-endian value of eight bytes.
pub open spec fn spec_be64(s: Seq<u8>) -> int {
    ((((((s[0] * 256 + s[1]) * 256 + s[2]) * 256 + s[3]) * 256 + s[4]) * 256 + s[5]) * 256 + s[6])
        * 256 + s[7]
}

/// Decode the frame at the head of `s`.  Reserved bits other than RSV1,
/// unknown opcodes, and control frames that are fragmented or oversized are
/// rejected; a non-minimal length encoding is tolerated.
pub open spec fn spec_parse_frame(s: Seq<u8>) -> ParseResult {
    if s.len() < 2 {
        ParseResult::Incomplete
    } else {
        let b0 = s[0];
        let b1 = s[1];
        let fin = b0 >= 128;
        let rsv1 = b0 % 128 >= 64;
        let rsv2 = b0 % 64 >= 32;
        let rsv3 = b0 % 32 >= 16;
        if rsv2 || rsv3 {
            ParseResult::Bad { close_code: 1002, error: ProtocolError::ReservedBitSet }
        } else {
            match OpCode::spec_from_value(b0 % 16) {
                None => ParseResult::Bad {
                    close_code: 1003,
                    error: ProtocolError::UnsupportedOpcode,
                },
                Some(code) => {
                    let masked = b1 >= 128;
                    let len7 = b1 % 128;
                    let ext = if len7 < 126 {
                        0int
                    } else if len7 == 126 {
                        2int
                    } else {
                        8int
                    };
                    if s.len() < 2 + ext {
                        ParseResult::Incomplete
                    } else {
                        let plen = if len7 < 126 {
                            len7 as int
                        } else if len7 == 126 {
                            spec_be16(s.subrange(2, 4))
                        } else {
                            spec_be64(s.subrange(2, 10))
                        };
                        if !code.spec_is_data() && !fin {
                            ParseResult::Bad {
                                close_code: 1002,
                                error: ProtocolError::FragmentedControlFrame,
                            }
                        } else if !code.spec_is_data() && plen > 125 {
                            ParseResult::Bad {
                                close_code: 1002,
                                error: ProtocolError::ControlPayloadTooLarge,
                            }
                        } else {
                            let mask_len = if masked {
                                4int
                            } else {
                                0int
                            };
                            let header_len = 2 + ext + mask_len;
                            if s.len() < header_len + plen {
                                ParseResult::Incomplete
                            } else {
                                let mask = if masked {
                                    Some(
                                        MaskKey {
                                            b0: s[2 + ext],
                                            b1: s[2 + ext + 1],
                                            b2: s[2 + ext + 2],
                                            b3: s[2 + ext + 3],
                                        },
                                    )
                                } else {
                                    None
                                };
                                let raw = s.subrange(header_len, header_len + plen);
                                let payload = match mask {
                                    Some(k) => mask_seq(raw, k),
                                    None => raw,
                                };
                                ParseResult::Frame {
                                    header: SimplifiedHeader {
                                        fin,
                                        rsv1,
                                        rsv2: false,
                                        rsv3: false,
                                        code,
                                    },
                                    mask,
                                    payload,
                                    used: header_len + plen,
                                }
                            }
                        }
                    }
                },
            }
        }
    }
}

/// A parsed frame occupies at least its two fixed header bytes and no more
/// than the whole input.
pub proof fn lemma_parse_used_bounds(s: Seq<u8>)
    ensures
        spec_parse_frame(s) matches ParseResult::Frame { used, .. } ==> 2 <= used <= s.len(),
{
}

/// Decoding the first header byte recovers the flags and the opcode.
proof fn lemma_byte0_decode(h: SimplifiedHeader)
    requires
        !h.rsv2,
        !h.rsv3,
    ensures
        ({
            let b = spec_byte0(h);
            &&& (b >= 128 <==> h.fin)
            &&& (b % 128 >= 64 <==> h.rsv1)
            &&& b % 64 < 32
            &&& b % 32 < 16
            &&& b % 16 == h.code.spec_value()
            &&& OpCode::spec_from_value(b % 16) == Some(h.code)
        }),
{
    let fb: u8 = if h.fin {
        128
    } else {
        0
    };
    let rb: u8 = if h.rsv1 {
        64
    } else {
        0
    };
    let vb: u8 = h.code.spec_value();
    let b = spec_byte0(h);
    assert(vb < 16);
    assert(b == fb + rb + vb);
    assert((b >= 128 <==> fb == 128) && (b % 128 >= 64 <==> rb == 64) && b % 64 < 32 && b % 32
        < 16 && b % 16 == vb) by (bit_vector)
        requires
            b == fb + rb + vb,
            fb == 0 || fb == 128,
            rb == 0 || rb == 64,
            vb < 16,
    ;
}

/// Decoding the second header byte recovers the mask bit and length field.
proof fn lemma_byte1_decode(masked: bool, len: u64)
    ensures
        ({
            let b = spec_byte1(masked, len);
            &&& (b >= 128 <==> masked)
            &&& b % 128 == spec_len7(len)
        }),
{
    let mb: u8 = if masked {
        128
    } else {
        0
    };
    let l7 = spec_len7(len);
    let b = spec_byte1(masked, len);
    assert(l7 < 128);
    assert(b == mb + l7);
    assert((b >= 128 <==> mb == 128) && b % 128 == l7) by (bit_vector)
        requires
            b == mb + l7,
            mb == 0 || mb == 128,
            l7 < 128,
    ;
}

/// The extended length bytes recompose to the payload length.
proof fn lemma_ext_len_decode(len: u64)
    ensures
        len < 126 ==> spec_ext_len(len).len() == 0,
        126 <= len <= 65535 ==> spec_ext_len(len).len() == 2 && spec_be16(spec_ext_len(len))
            == len,
        len > 65535 ==> spec_ext_len(len).len() == 8 && spec_be64(spec_ext_len(len)) == len,
{
    if 126 <= len && len <= 65535 {
        assert((len / 256) * 256 + len % 256 == len && len / 256 < 256) by (bit_vector)
            requires
                len <= 65535,
        ;
    } else if len > 65535 {
        assert(len / 0x100000000000000 < 256) by (bit_vector);
        assert((((((((len / 0x100000000000000) * 256 + (len / 0x1000000000000) % 256) * 256 + (len
            / 0x10000000000) % 256) * 256 + (len / 0x100000000) % 256) * 256 + (len / 0x1000000)
            % 256) * 256 + (len / 0x10000) % 256) * 256 + (len / 0x100) % 256) * 256 + len % 256
            == len) by (bit_vector);
    }
}

/// Parsing inverts serialization: at the head of the input, a serialized
/// frame decodes to exactly its header, key and logical payload.
pub proof fn lemma_parse_frame_wire(
    h: SimplifiedHeader,
    mask: Option<MaskKey>,
    payload: Seq<u8>,
    rest: Seq<u8>,
)
    requires
        !h.rsv2,
        !h.rsv3,
        payload.len() <= u64::MAX,
        !h.code.spec_is_data() ==> h.fin && payload.len() <= 125,
    ensures
        ({
            let wire = spec_frame_wire(h, mask, payload);
            spec_parse_frame(wire + rest) == (ParseResult::Frame {
                header: h,
                mask,
                payload,
                used: wire.len() as int,
            })
        }),
{
    let len64 = payload.len() as u64;
    lemma_byte0_decode(h);
    lemma_byte1_decode(mask is Some, len64);
    lemma_ext_len_decode(len64);
    let hb = spec_header_bytes(h, mask, len64);
    let wire = spec_frame_wire(h, mask, payload);
    let s = wire + rest;
    let ext = spec_ext_len(len64);
    let mask_bytes = match mask {
        Some(k) => k.bytes(),
        None => Seq::<u8>::empty(),
    };
    let masked_payload = match mask {
        Some(k) => mask_seq(payload, k),
        None => payload,
    };
    assert(hb.len() == 2 + ext.len() + mask_bytes.len());
    assert(wire.len() == hb.len() + payload.len());
    assert(s[0] == spec_byte0(h));
    assert(s[1] == spec_byte1(mask is Some, len64));
    let extn = ext.len() as int;
    assert forall|j: int| 0 <= j < extn implies s[2 + j] == ext[j] by {
        assert(hb[2 + j] == ext[j]);
    }
    if len64 >= 126 && len64 <= 65535 {
        assert(s.subrange(2, 4) =~= ext);
    }
    if len64 > 65535 {
        assert(s.subrange(2, 10) =~= ext);
    }
    match mask {
        Some(k) => {
            assert(hb[2 + extn] == k.b0);
            assert(hb[2 + extn + 1] == k.b1);
            assert(hb[2 + extn + 2] == k.b2);
            assert(hb[2 + extn + 3] == k.b3);
            assert(s[2 + extn] == k.b0);
            assert(s[2 + extn + 1] == k.b1);
            assert(s[2 + extn + 2] == k.b2);
            assert(s[2 + extn + 3] == k.b3);
        },
        None => {},
    }
    let hl = hb.len() as int;
    assert forall|j: int| 0 <= j < payload.len() implies s[hl + j] == masked_payload[j] by {
        assert(wire[hl + j] == masked_payload[j]);
    }
    assert(s.subrange(hl, hl + payload.len()) =~= masked_payload);
    match mask {
        Some(k) => {
            lemma_mask_involutive(payload, k);
        },
        None => {},
    }
    assert(spec_parse_frame(s) == (ParseResult::Frame {
        header: h,
        mask,
        payload,
        used: wire.len() as int,
    }));
}

/// Read exactly one frame from the stream, consuming it; unmask the payload.
/// An incomplete frame consumes nothing and reports an IO error.
pub fn read_frame(rs: &mut ReadStream) -> (r: Result<
    (SimplifiedHeader, Option<MaskKey>, Vec<u8>),
    WsError,
>)
    requires
        old(rs).wf(),
    ensures
        final(rs).wf(),
        match spec_parse_frame(old(rs).remaining()) {
            ParseResult::Incomplete => r is Err && r->Err_0 == WsError::IOError && *final(rs) == *old(rs),
            ParseResult::Bad { close_code, error } => r is Err && r->Err_0 == (
            WsError::ProtocolError { close_code, error }) && *final(rs) == *old(rs),
            ParseResult::Frame { header, mask, payload, used } => r is Ok && r->Ok_0.0 == header
                && r->Ok_0.1 == mask && r->Ok_0.2@ == payload && final(rs).remaining() == old(
                rs,
            ).remaining().skip(used),
        },
{
    let ghost s = rs.remaining();
    if rs.available() < 2 {
        return Err(WsError::IOError);
    }
    let b0 = rs.byte_at(0);
    let b1 = rs.byte_at(1);
    let fin = b0 >= 128;
    let rsv1 = b0 % 128 >= 64;
    let rsv2 = b0 % 64 >= 32;
    let rsv3 = b0 % 32 >= 16;
    if rsv2 || rsv3 {
        return Err(
            WsError::ProtocolError { close_code: 1002, error: ProtocolError::ReservedBitSet },
        );
    }
    let code = match OpCode::from_value(b0 % 16) {
        Some(c) => c,
        None => {
            return Err(
                WsError::ProtocolError { close_code: 1003, error: ProtocolError::UnsupportedOpcode },
            );
        },
    };
    let masked = b1 >= 128;
    let len7 = b1 % 128;
    let ext: usize = if len7 < 126 {
        0
    } else if len7 == 126 {
        2
    } else {
        8
    };
    if rs.available() < 2 + ext {
        return Err(WsError::IOError);
    }
    let plen: u64 = if len7 < 126 {
        len7 as u64
    } else if len7 == 126 {
        (rs.byte_at(2) as u64) * 256 + (rs.byte_at(3) as u64)
    } else {
        let c0 = rs.byte_at(2) as u64;
        let c1 = rs.byte_at(3) as u64;
        let c2 = rs.byte_at(4) as u64;
        let c3 = rs.byte_at(5) as u64;
        let c4 = rs.byte_at(6) as u64;
        let c5 = rs.byte_at(7) as u64;
        let c6 = rs.byte_at(8) as u64;
        let c7 = rs.byte_at(9) as u64;
        ((((((c0 * 256 + c1) * 256 + c2) * 256 + c3) * 256 + c4) * 256 + c5) * 256 + c6) * 256 + c7
    };
    if !code.is_data() && !fin {
        return Err(
            WsError::ProtocolError {
                close_code: 1002,
                error: ProtocolError::FragmentedControlFrame,
            },
        );
    }
    if !code.is_data() && plen > 125 {
        return Err(
            WsError::ProtocolError {
                close_code: 1002,
                error: ProtocolError::ControlPayloadTooLarge,
            },
        );
    }
    let mask_len: usize = if masked {
        4
    } else {
        0
    };
    let header_len: usize = 2 + ext + mask_len;
    let avail = rs.available();
    if avail < header_len || ((avail - header_len) as u64) < plen {
        return Err(WsError::IOError);
    }
    let plen_usize: usize = plen as usize;
    let mask = if masked {
        Some(
            MaskKey {
                b0: rs.byte_at(2 + ext),
                b1: rs.byte_at(2 + ext + 1),
                b2: rs.byte_at(2 + ext + 2),
                b3: rs.byte_at(2 + ext + 3),
            },
        )
    } else {
        None
    };
    let mut payload = rs.copy_range(header_len, plen_usize);
    rs.consume(header_len + plen_usize);
    match mask {
        Some(k) => {
            apply_mask(&mut payload, k);
        },
        None => {},
    }
    let header = SimplifiedHeader { fin, rsv1, rsv2: false, rsv3: false, code };
    Ok((header, mask, payload))
}

// ---------------------------------------------------------------------------
// Owned frames
// ---------------------------------------------------------------------------

/// Copy `data[start..end]` into a fresh buffer.
pub fn copy_slice_range(data: &[u8], start: usize, end: usize) -> (r: Vec<u8>)
    requires
        start <= end <= data@.len(),
    ensures
        r@ == data@.subrange(start as int, end as int),
{
    let mut out: Vec<u8> = Vec::new();
    let mut i: usize = start;
    while i < end
        invariant
            start <= i <= end <= data@.len(),
            out@ == data@.subrange(start as int, i as int),
        decreases end - i,
    {
        out.push(data[i]);
        i = i + 1;
        proof {
            assert(out@ =~= data@.subrange(start as int, i as int));
        }
    }
    out
}

/// A decoded header plus an owned payload buffer.  The payload is stored in
/// its wire form: masked whenever a key is present.
pub struct OwnedFrame {
    pub fin: bool,
    pub rsv1: bool,
    pub code: OpCode,
    pub mask: Option<MaskKey>,
    pub payload: Vec<u8>,
}

impl OwnedFrame {
    /// The logical payload: the stored bytes with the mask removed.
    pub open spec fn unmasked(self) -> Seq<u8> {
        match self.mask {
            Some(k) => mask_seq(self.payload@, k),
            None => self.payload@,
        }
    }

    /// The frame's header as the read pipeline would surface it.
    pub open spec fn header(self) -> SimplifiedHeader {
        SimplifiedHeader {
            fin: self.fin,
            rsv1: self.rsv1,
            rsv2: false,
            rsv3: false,
            code: self.code,
        }
    }

    /// A final, uncompressed frame holding `payload`, masked under `mask`
    /// when a key is given.
    pub fn new(code: OpCode, mask: Option<MaskKey>, payload: &[u8]) -> (r: OwnedFrame)
        ensures
            r.fin == true,
            r.rsv1 == false,
            r.code == code,
            r.mask == mask,
            r.unmasked() == payload@,
    {
        let mut buf = copy_slice_range(payload, 0, payload.len());
        proof {
            assert(payload@.subrange(0, payload@.len() as int) =~= payload@);
        }
        match mask {
            Some(k) => {
                apply_mask(&mut buf, k);
                proof {
                    lemma_mask_involutive(payload@, k);
                }
            },
            None => {},
        }
        OwnedFrame { fin: true, rsv1: false, code, mask, payload: buf }
    }

    pub fn set_fin(&mut self, fin: bool)
        ensures
            *final(self) == (OwnedFrame { fin, ..*old(self) }),
    {
        self.fin = fin;
    }

    pub fn set_rsv1(&mut self, rsv1: bool)
        ensures
            *final(self) == (OwnedFrame { rsv1, ..*old(self) }),
    {
        self.rsv1 = rsv1;
    }

    /// Remove the mask: unscramble the stored payload, clear the key, and
    /// return the key that was in place.
    pub fn unmask(&mut self) -> (r: Option<MaskKey>)
        ensures
            r == old(self).mask,
            final(self).mask is None,
            final(self).payload@ == old(self).unmasked(),
            final(self).unmasked() == old(self).unmasked(),
            final(self).fin == old(self).fin,
            final(self).rsv1 == old(self).rsv1,
            final(self).code == old(self).code,
    {
        let m = self.mask;
        match m {
            Some(k) => {
                apply_mask(&mut self.payload, k);
                self.mask = None;
                Some(k)
            },
            None => None,
        }
    }

    /// Apply a mask to an unmasked frame: scramble the stored payload and
    /// record the key.  The logical payload is unchanged.
    pub fn mask(&mut self, key: MaskKey)
        requires
            old(self).mask is None,
        ensures
            final(self).mask == Some(key),
            final(self).payload@ == mask_seq(old(self).payload@, key),
            final(self).unmasked() == old(self).unmasked(),
            final(self).fin == old(self).fin,
            final(self).rsv1 == old(self).rsv1,
            final(self).code == old(self).code,
    {
        apply_mask(&mut self.payload, key);
        self.mask = Some(key);
        proof {
            lemma_mask_involutive(old(self).payload@, key);
        }
    }
}


} // verus!
