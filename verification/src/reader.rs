//! The read pipeline: frame reception, decompression, fragmentation assembly
//! and protocol enforcement.

use vstd::prelude::*;

use crate::config::{FrameConfig, PMDConfig};
use crate::deflate::{inflate_of, sync_trailer, Decompressor};
use crate::deflate::{deflate_of, strip_trailer};
use crate::frame::{
    copy_slice_range, lemma_parse_frame_wire, lemma_parse_used_bounds, read_frame,
    spec_frame_wire, spec_parse_frame, ParseResult,
};
use crate::stream::ReadStream;
use crate::types::{MaskKey, OpCode, ProtocolError, SimplifiedHeader, WsError};

verus! {

broadcast use vstd::string::to_string_from_display_ensures_for_str;

/// Whether a byte sequence is valid UTF-8; what `simdutf8` decides.
pub uninterp spec fn utf8_ok(s: Seq<u8>) -> bool;

/// Relies on simdutf8::basic::from_utf8: validity of the bytes as UTF-8, a
/// function of the bytes alone; the empty slice is valid.
#[verifier::external_body]
fn utf8_valid(data: &[u8]) -> (r: bool)
    ensures
        r == utf8_ok(data@),
        data@.len() == 0 ==> r,
{
    simdutf8::basic::from_utf8(data).is_ok()
}

/// The single frame a symmetric peer emits for payload `p` when its
/// compressor is freshly reset: FIN and RSV1 set, the sync-flush trailer
/// stripped, masked under `k`.
pub open spec fn compressed_message_wire(code: OpCode, k: Option<MaskKey>, p: Seq<u8>) -> Seq<u8> {
    spec_frame_wire(
        SimplifiedHeader { fin: true, rsv1: true, rsv2: false, rsv3: false, code },
        k,
        strip_trailer(deflate_of(Seq::<Seq<u8>>::empty(), p)),
    )
}

/// How an error surfaces; only the engine's own failure text is left open.
pub enum ErrKind {
    Io,
    Protocol { close_code: u16, error: ProtocolError },
    DeCompress,
    /// A compressed frame arrived while the extension is off; the message
    /// text is fixed.
    DeCompressNotEnabled,
}

/// Whether a surfaced error is of the modelled kind.
pub open spec fn matches_err(e: WsError, k: ErrKind) -> bool {
    match k {
        ErrKind::Io => e == WsError::IOError,
        ErrKind::Protocol { close_code, error } => e == (WsError::ProtocolError {
            close_code,
            error,
        }),
        ErrKind::DeCompress => e is DeCompressFailed,
        ErrKind::DeCompressNotEnabled => e matches WsError::DeCompressFailed(m) && m@
            == "extension not enabled but got compressed frame"@,
    }
}

/// What one frame reception yields.
pub enum OneOutcome {
    Fail(ErrKind),
    Got { header: SimplifiedHeader, data: Seq<u8>, used: int, hist2: Seq<Seq<u8>> },
}

/// The model of one frame reception: parse a frame, reject a compressed
/// control frame, inflate a compressed data frame with the flush trailer
/// restored, clear RSV1, and reset the inflater under no-context-takeover.
pub open spec fn spec_receive_one(
    s: Seq<u8>,
    de_enabled: bool,
    hist: Seq<Seq<u8>>,
    nct: bool,
) -> OneOutcome {
    match spec_parse_frame(s) {
        ParseResult::Incomplete => OneOutcome::Fail(ErrKind::Io),
        ParseResult::Bad { close_code, error } => OneOutcome::Fail(
            ErrKind::Protocol { close_code, error },
        ),
        ParseResult::Frame { header, mask, payload, used } => {
            if header.rsv1 && !header.code.is_data() {
                OneOutcome::Fail(
                    ErrKind::Protocol {
                        close_code: 1002,
                        error: ProtocolError::CompressedControlFrame,
                    },
                )
            } else if !header.code.is_data() || !header.rsv1 {
                OneOutcome::Got { header, data: payload, used, hist2: hist }
            } else if !de_enabled {
                OneOutcome::Fail(ErrKind::DeCompressNotEnabled)
            } else {
                match inflate_of(hist, payload + sync_trailer()) {
                    None => OneOutcome::Fail(ErrKind::DeCompress),
                    Some(out) => OneOutcome::Got {
                        header: SimplifiedHeader { rsv1: false, ..header },
                        data: out,
                        used,
                        hist2: if nct {
                            Seq::<Seq<u8>>::empty()
                        } else {
                            hist.push(payload + sync_trailer())
                        },
                    },
                }
            }
        },
    }
}

/// What one `receive` call yields: the message (or raw frame), the input
/// consumed, and the read state left behind.
pub enum RecvOutcome {
    Fail(ErrKind),
    Msg {
        header: SimplifiedHeader,
        data: Seq<u8>,
        used: int,
        fragmented: bool,
        ftype: OpCode,
        acc: Seq<u8>,
        hist: Seq<Seq<u8>>,
    },
}

/// Account for input consumed before a recursive step.
pub open spec fn add_used(o: RecvOutcome, extra: int) -> RecvOutcome {
    match o {
        RecvOutcome::Fail(k) => RecvOutcome::Fail(k),
        RecvOutcome::Msg { header, data, used, fragmented, ftype, acc, hist } => RecvOutcome::Msg {
            header,
            data,
            used: used + extra,
            fragmented,
            ftype,
            acc,
            hist,
        },
    }
}

/// The model of `receive`: frames are taken one at a time and folded by the
/// RFC 6455 fragmentation rules until a message completes.  With
/// `merge_frame` off, each frame surfaces raw.  UTF-8 of Text is validated
/// per fragment under FastFail and on the assembled message under Check.
pub open spec fn spec_receive(
    s: Seq<u8>,
    cfg: FrameConfig,
    de_enabled: bool,
    hist: Seq<Seq<u8>>,
    nct: bool,
    fragmented: bool,
    ftype: OpCode,
    acc: Seq<u8>,
) -> RecvOutcome
    decreases s.len(),
{
    match spec_receive_one(s, de_enabled, hist, nct) {
        OneOutcome::Fail(k) => RecvOutcome::Fail(k),
        OneOutcome::Got { header, data, used, hist2 } => {
            if used < 2 || used > s.len() {
                // never reached: a parsed frame spans 2 to s.len() bytes
                RecvOutcome::Fail(ErrKind::Io)
            } else if !cfg.merge_frame {
                RecvOutcome::Msg { header, data, used, fragmented, ftype, acc: data, hist: hist2 }
            } else {
                match header.code {
                    OpCode::Continue => {
                        if !fragmented {
                            RecvOutcome::Fail(
                                ErrKind::Protocol {
                                    close_code: 1002,
                                    error: ProtocolError::MissInitialFragmentedFrame,
                                },
                            )
                        } else if ftype is Text && cfg.validate_utf8.is_fast_fail() && !utf8_ok(
                            data,
                        ) {
                            RecvOutcome::Fail(
                                ErrKind::Protocol {
                                    close_code: 1007,
                                    error: ProtocolError::InvalidUtf8,
                                },
                            )
                        } else {
                            let acc2 = acc + data;
                            if header.fin {
                                if ftype is Text && cfg.validate_utf8 is Check && !utf8_ok(acc2) {
                                    RecvOutcome::Fail(
                                        ErrKind::Protocol {
                                            close_code: 1007,
                                            error: ProtocolError::InvalidUtf8,
                                        },
                                    )
                                } else {
                                    RecvOutcome::Msg {
                                        header: SimplifiedHeader { code: ftype, ..header },
                                        data: acc2,
                                        used,
                                        fragmented: false,
                                        ftype,
                                        acc: acc2,
                                        hist: hist2,
                                    }
                                }
                            } else {
                                add_used(
                                    spec_receive(
                                        s.skip(used),
                                        cfg,
                                        de_enabled,
                                        hist2,
                                        nct,
                                        true,
                                        ftype,
                                        acc2,
                                    ),
                                    used,
                                )
                            }
                        }
                    },
                    OpCode::Text | OpCode::Binary => {
                        if fragmented {
                            RecvOutcome::Fail(
                                ErrKind::Protocol {
                                    close_code: 1002,
                                    error: ProtocolError::NotContinueFrameAfterFragmented,
                                },
                            )
                        } else if !header.fin {
                            if header.code is Text && cfg.validate_utf8.is_fast_fail() && !utf8_ok(
                                data,
                            ) {
                                RecvOutcome::Fail(
                                    ErrKind::Protocol {
                                        close_code: 1007,
                                        error: ProtocolError::InvalidUtf8,
                                    },
                                )
                            } else {
                                add_used(
                                    spec_receive(
                                        s.skip(used),
                                        cfg,
                                        de_enabled,
                                        hist2,
                                        nct,
                                        true,
                                        header.code,
                                        data,
                                    ),
                                    used,
                                )
                            }
                        } else {
                            if header.code is Text && cfg.validate_utf8.should_check() && !utf8_ok(
                                data,
                            ) {
                                RecvOutcome::Fail(
                                    ErrKind::Protocol {
                                        close_code: 1007,
                                        error: ProtocolError::InvalidUtf8,
                                    },
                                )
                            } else {
                                RecvOutcome::Msg {
                                    header,
                                    data,
                                    used,
                                    fragmented,
                                    ftype,
                                    acc: data,
                                    hist: hist2,
                                }
                            }
                        }
                    },
                    _ => RecvOutcome::Msg { header, data, used, fragmented, ftype, acc, hist: hist2 },
                }
            }
        },
    }
}

/// A control frame with RSV1 set is refused with close code 1002, whether
/// or not the extension is negotiated and whatever the assembly state.
pub proof fn lemma_compressed_control_refused(
    s: Seq<u8>,
    cfg: FrameConfig,
    de_enabled: bool,
    hist: Seq<Seq<u8>>,
    nct: bool,
    fragmented: bool,
    ftype: OpCode,
    acc: Seq<u8>,
)
    ensures
        (match spec_parse_frame(s) {
            ParseResult::Frame { header, .. } => (header.rsv1 && !header.code.is_data())
                ==> spec_receive(s, cfg, de_enabled, hist, nct, fragmented, ftype, acc)
                == RecvOutcome::Fail(
                ErrKind::Protocol { close_code: 1002, error: ProtocolError::CompressedControlFrame },
            ),
            _ => true,
        }),
{
}

/// Under local no-context-takeover one frame reception leaves the inflater
/// as freshly initialized: the history is reset after inflating a compressed
/// data frame and untouched by frames that needed no inflation.
pub proof fn lemma_read_nct_resets(s: Seq<u8>, de_enabled: bool, hist: Seq<Seq<u8>>)
    ensures
        (match spec_receive_one(s, de_enabled, hist, true) {
            OneOutcome::Got { hist2, .. } => hist2 == Seq::<Seq<u8>>::empty() || hist2 == hist,
            OneOutcome::Fail(_) => true,
        }),
        (match spec_parse_frame(s) {
            ParseResult::Frame { header, .. } => (header.rsv1 && header.code.is_data()
                && de_enabled) ==> (match spec_receive_one(s, de_enabled, hist, true) {
                OneOutcome::Got { hist2, .. } => hist2 == Seq::<Seq<u8>>::empty(),
                OneOutcome::Fail(_) => true,
            }),
            _ => true,
        }),
{
}

/// Skipping twice is skipping the sum.
proof fn lemma_skip_skip<T>(s: Seq<T>, a: int, b: int)
    requires
        0 <= a,
        0 <= b,
        a + b <= s.len(),
    ensures
        s.skip(a).skip(b) == s.skip(a + b),
{
    assert(s.skip(a).skip(b) =~= s.skip(a + b));
}

/// A completed message consumes between one frame and the whole input.
proof fn lemma_receive_used_bounds(
    s: Seq<u8>,
    cfg: FrameConfig,
    de_enabled: bool,
    hist: Seq<Seq<u8>>,
    nct: bool,
    fragmented: bool,
    ftype: OpCode,
    acc: Seq<u8>,
)
    ensures
        spec_receive(s, cfg, de_enabled, hist, nct, fragmented, ftype, acc) matches
            RecvOutcome::Msg { used, .. } ==> 2 <= used <= s.len(),
    decreases s.len(),
{
    match spec_receive_one(s, de_enabled, hist, nct) {
        OneOutcome::Fail(_) => {},
        OneOutcome::Got { header, data, used, hist2 } => {
            if 2 <= used <= s.len() && cfg.merge_frame {
                match header.code {
                    OpCode::Continue => {
                        if fragmented && !(ftype is Text && cfg.validate_utf8.is_fast_fail()
                            && !utf8_ok(data)) && !header.fin {
                            lemma_receive_used_bounds(
                                s.skip(used),
                                cfg,
                                de_enabled,
                                hist2,
                                nct,
                                true,
                                ftype,
                                acc + data,
                            );
                        }
                    },
                    OpCode::Text => {
                        if !fragmented && !header.fin && !(header.code is Text
                            && cfg.validate_utf8.is_fast_fail() && !utf8_ok(data)) {
                            lemma_receive_used_bounds(
                                s.skip(used),
                                cfg,
                                de_enabled,
                                hist2,
                                nct,
                                true,
                                header.code,
                                data,
                            );
                        }
                    },
                    OpCode::Binary => {
                        if !fragmented && !header.fin {
                            lemma_receive_used_bounds(
                                s.skip(used),
                                cfg,
                                de_enabled,
                                hist2,
                                nct,
                                true,
                                header.code,
                                data,
                            );
                        }
                    },
                    _ => {},
                }
            }
        },
    }
}

/// Append `src` to `dst`.
fn extend_vec(dst: &mut Vec<u8>, src: &Vec<u8>)
    ensures
        final(dst)@ == old(dst)@ + src@,
{
    let n = src.len();
    let mut i: usize = 0;
    while i < n
        invariant
            n == src@.len(),
            i <= n,
            dst@ == old(dst)@ + src@.take(i as int),
        decreases n - i,
    {
        dst.push(src[i]);
        i = i + 1;
        proof {
            assert(dst@ =~= old(dst)@ + src@.take(i as int));
        }
    }
    proof {
        assert(src@.take(n as int) =~= src@);
    }
}

/// Copy a whole buffer.
fn clone_vec(src: &Vec<u8>) -> (r: Vec<u8>)
    ensures
        r@ == src@,
{
    let r = copy_slice_range(src.as_slice(), 0, src.len());
    proof {
        assert(src@.subrange(0, src@.len() as int) =~= src@);
    }
    r
}

/// The contract of `receive`, relating the read state and pending input
/// before and after one call.
pub open spec fn recv_post(
    st0: DeflateReadState,
    in0: Seq<u8>,
    st1: DeflateReadState,
    in1: Seq<u8>,
    r: Result<(SimplifiedHeader, Vec<u8>), WsError>,
) -> bool {
    match spec_receive(
        in0,
        st0.config,
        st0.de_enabled(),
        st0.de_hist(),
        st0.local_nct(),
        st0.fragmented,
        st0.fragmented_type,
        st0.fragmented_data@,
    ) {
        RecvOutcome::Fail(k) => r is Err && matches_err(r->Err_0, k),
        RecvOutcome::Msg { header, data, used, fragmented, ftype, acc, hist } => r is Ok
            && r->Ok_0.0 == header && r->Ok_0.1@ == data && in1 == in0.skip(used)
            && st1.fragmented == fragmented && st1.fragmented_type == ftype
            && st1.fragmented_data@ == acc && st1.de_hist() == hist,
    }
}

/// Owns the frame configuration, the negotiated extension parameters, the
/// inflater (present exactly when the extension was negotiated), and the
/// fragmented-message accumulator.
pub struct DeflateReadState {
    pub config: FrameConfig,
    pub pmd: Option<PMDConfig>,
    pub de: Option<Decompressor>,
    pub is_server: bool,
    pub fragmented: bool,
    pub fragmented_type: OpCode,
    pub fragmented_data: Vec<u8>,
}

impl DeflateReadState {
    pub open spec fn wf(self) -> bool {
        self.de is Some <==> self.pmd is Some
    }

    pub open spec fn de_enabled(self) -> bool {
        self.de is Some
    }

    /// The inflater's chunk history; empty when compression is off.
    pub open spec fn de_hist(self) -> Seq<Seq<u8>> {
        match self.de {
            Some(d) => d.history(),
            None => Seq::<Seq<u8>>::empty(),
        }
    }

    pub open spec fn local_nct(self) -> bool {
        match self.pmd {
            Some(p) => p.local_no_context_takeover(self.is_server),
            None => false,
        }
    }

    /// Fields that one receive never changes.
    pub open spec fn same_shape(self, other: Self) -> bool {
        self.config == other.config && self.pmd == other.pmd && self.is_server == other.is_server
            && (self.de is Some <==> other.de is Some)
    }

    pub fn with_config(config: FrameConfig, pmd: Option<PMDConfig>, is_server: bool) -> (r: Self)
        ensures
            r.wf(),
            r.config == config,
            r.pmd == pmd,
            r.is_server == is_server,
            r.de_hist() == Seq::<Seq<u8>>::empty(),
            r.de_enabled() <==> pmd is Some,
            r.fragmented == false,
            r.fragmented_type == OpCode::Text,
            r.fragmented_data@ == Seq::<u8>::empty(),
    {
        let de = match pmd {
            Some(_) => Some(Decompressor::new()),
            None => None,
        };
        let r = DeflateReadState {
            config,
            pmd,
            de,
            is_server,
            fragmented: false,
            fragmented_type: OpCode::Text,
            fragmented_data: Vec::new(),
        };
        proof {
            assert(r.fragmented_data@ =~= Seq::<u8>::empty());
        }
        r
    }

    fn local_nct_exec(&self) -> (r: bool)
        ensures
            r == self.local_nct(),
    {
        match &self.pmd {
            Some(p) => {
                if self.is_server {
                    p.server_no_context_takeover
                } else {
                    p.client_no_context_takeover
                }
            },
            None => false,
        }
    }

    /// Read one frame and undo the extension's work: reject a compressed
    /// control frame, inflate a compressed data frame, surface the rest as-is.
    fn receive_one(&mut self, stream: &mut ReadStream) -> (r: Result<
        (SimplifiedHeader, Vec<u8>),
        WsError,
    >)
        requires
            old(self).wf(),
            old(stream).wf(),
        ensures
            final(self).wf(),
            final(stream).wf(),
            old(self).same_shape(*final(self)),
            final(self).fragmented == old(self).fragmented,
            final(self).fragmented_type == old(self).fragmented_type,
            final(self).fragmented_data@ == old(self).fragmented_data@,
            match spec_receive_one(
                old(stream).remaining(),
                old(self).de_enabled(),
                old(self).de_hist(),
                old(self).local_nct(),
            ) {
                OneOutcome::Fail(k) => r is Err && matches_err(r->Err_0, k),
                OneOutcome::Got { header, data, used, hist2 } => r is Ok && r->Ok_0.0 == header
                    && r->Ok_0.1@ == data && final(stream).remaining() == old(
                    stream,
                ).remaining().skip(used) && final(self).de_hist() == hist2,
            },
            forall|p: Seq<u8>, k: Option<MaskKey>|
                (old(self).de_enabled() && old(self).de_hist().len() == 0 && strip_trailer(
                    deflate_of(Seq::<Seq<u8>>::empty(), p),
                ).len() <= u64::MAX && old(stream).remaining()
                    == #[trigger] compressed_message_wire(OpCode::Binary, k, p)) ==> r is Ok && r->Ok_0.0 == (SimplifiedHeader {
                    fin: true,
                    rsv1: false,
                    rsv2: false,
                    rsv3: false,
                    code: OpCode::Binary,
                }) && r->Ok_0.1@ == p,
    {
        let ghost s0 = stream.remaining();
        proof {
            assert forall|p: Seq<u8>, k: Option<MaskKey>|
                strip_trailer(deflate_of(Seq::<Seq<u8>>::empty(), p)).len() <= u64::MAX && s0
                    == #[trigger] compressed_message_wire(OpCode::Binary, k, p) implies spec_parse_frame(
                s0,
            ) == (ParseResult::Frame {
                header: SimplifiedHeader {
                    fin: true,
                    rsv1: true,
                    rsv2: false,
                    rsv3: false,
                    code: OpCode::Binary,
                },
                mask: k,
                payload: strip_trailer(deflate_of(Seq::<Seq<u8>>::empty(), p)),
                used: s0.len() as int,
            }) by {
                let body = strip_trailer(deflate_of(Seq::<Seq<u8>>::empty(), p));
                let hh = SimplifiedHeader {
                    fin: true,
                    rsv1: true,
                    rsv2: false,
                    rsv3: false,
                    code: OpCode::Binary,
                };
                lemma_parse_frame_wire(hh, k, body, Seq::<u8>::empty());
                assert(spec_frame_wire(hh, k, body) + Seq::<u8>::empty() =~= spec_frame_wire(
                    hh,
                    k,
                    body,
                ));
            }
        }
        let (header, _mask, payload) = match read_frame(stream) {
            Ok(x) => x,
            Err(e) => {
                return Err(e);
            },
        };
        if header.rsv1 && !header.code.is_data() {
            return Err(
                WsError::ProtocolError {
                    close_code: 1002,
                    error: ProtocolError::CompressedControlFrame,
                },
            );
        }
        if !header.code.is_data() || !header.rsv1 {
            return Ok((header, payload));
        }
        let nct = self.local_nct_exec();
        let ghost payload_s = payload@;
        match &mut self.de {
            None => {
                let msg = "extension not enabled but got compressed frame".to_string();
                proof {
                    assert(msg@ == "extension not enabled but got compressed frame"@);
                }
                Err(WsError::DeCompressFailed(msg))
            },
            Some(d) => {
                let mut input = payload;
                input.push(0);
                input.push(0);
                input.push(255);
                input.push(255);
                proof {
                    assert(input@ =~= payload_s + sync_trailer());
                }
                match d.decompress(input.as_slice()) {
                    Ok(out) => {
                        if nct {
                            d.reset();
                        }
                        let h2 = SimplifiedHeader {
                            fin: header.fin,
                            rsv1: false,
                            rsv2: header.rsv2,
                            rsv3: header.rsv3,
                            code: header.code,
                        };
                        Ok((h2, out))
                    },
                    Err(e) => Err(WsError::DeCompressFailed(e)),
                }
            },
        }
    }

    /// Receive one message (or one raw frame with `merge_frame` off),
    /// enforcing the fragmentation, compression and UTF-8 rules.
    pub fn receive(&mut self, stream: &mut ReadStream) -> (r: Result<
        (SimplifiedHeader, Vec<u8>),
        WsError,
    >)
        requires
            old(self).wf(),
            old(stream).wf(),
        ensures
            final(self).wf(),
            final(stream).wf(),
            old(self).same_shape(*final(self)),
            recv_post(
                *old(self),
                old(stream).remaining(),
                *final(self),
                final(stream).remaining(),
                r,
            ),
            // Round trip: what a symmetric sender with a freshly reset
            // compressor emitted for payload p comes back byte-equal.
            forall|p: Seq<u8>, k: Option<MaskKey>|
                (old(self).de_enabled() && old(self).de_hist().len() == 0 && !old(self).fragmented
                    && old(self).config.merge_frame && strip_trailer(
                    deflate_of(Seq::<Seq<u8>>::empty(), p),
                ).len() <= u64::MAX && old(stream).remaining()
                    == #[trigger] compressed_message_wire(OpCode::Binary, k, p)) ==> r is Ok
                    && r->Ok_0.0.code == OpCode::Binary && r->Ok_0.0.fin && r->Ok_0.1@ == p,
        decreases stream.remaining().len(),
    {
        let ghost s0 = stream.remaining();
        proof {
            lemma_parse_used_bounds(s0);
        }
        let (mut header, data) = match self.receive_one(stream) {
            Ok(x) => x,
            Err(e) => {
                return Err(e);
            },
        };
        if !self.config.merge_frame {
            let copy = clone_vec(&data);
            self.fragmented_data = copy;
            return Ok((header, data));
        }
        match header.code {
            OpCode::Continue => {
                if !self.fragmented {
                    return Err(
                        WsError::ProtocolError {
                            close_code: 1002,
                            error: ProtocolError::MissInitialFragmentedFrame,
                        },
                    );
                }
                let ftype_is_text = matches!(self.fragmented_type, OpCode::Text);
                if ftype_is_text && self.config.validate_utf8.is_fast_fail() && !utf8_valid(
                    data.as_slice(),
                ) {
                    return Err(
                        WsError::ProtocolError {
                            close_code: 1007,
                            error: ProtocolError::InvalidUtf8,
                        },
                    );
                }
                extend_vec(&mut self.fragmented_data, &data);
                if header.fin {
                    let check_whole = matches!(self.config.validate_utf8, crate::config::ValidateUtf8Policy::Check);
                    if ftype_is_text && check_whole && !utf8_valid(self.fragmented_data.as_slice())
                    {
                        return Err(
                            WsError::ProtocolError {
                                close_code: 1007,
                                error: ProtocolError::InvalidUtf8,
                            },
                        );
                    }
                    self.fragmented = false;
                    header.code = self.fragmented_type;
                    let out = clone_vec(&self.fragmented_data);
                    Ok((header, out))
                } else {
                    let res = self.receive(stream);
                    proof {
                        if res is Ok {
                            match spec_receive_one(
                                s0,
                                old(self).de_enabled(),
                                old(self).de_hist(),
                                old(self).local_nct(),
                            ) {
                                OneOutcome::Got { header: h_, data: d_, used: u_, hist2: hh_ } => {
                                    let inner = spec_receive(
                                        s0.skip(u_),
                                        old(self).config,
                                        old(self).de_enabled(),
                                        hh_,
                                        old(self).local_nct(),
                                        true,
                                        old(self).fragmented_type,
                                        old(self).fragmented_data@ + d_,
                                    );
                                    lemma_receive_used_bounds(
                                        s0.skip(u_),
                                        old(self).config,
                                        old(self).de_enabled(),
                                        hh_,
                                        old(self).local_nct(),
                                        true,
                                        old(self).fragmented_type,
                                        old(self).fragmented_data@ + d_,
                                    );
                                    match inner {
                                        RecvOutcome::Msg { used: u2_, .. } => {
                                            lemma_skip_skip(s0, u_, u2_);
                                        },
                                        _ => {},
                                    }
                                },
                                _ => {},
                            }
                        }
                    }
                    res
                }
            },
            OpCode::Text | OpCode::Binary => {
                if self.fragmented {
                    return Err(
                        WsError::ProtocolError {
                            close_code: 1002,
                            error: ProtocolError::NotContinueFrameAfterFragmented,
                        },
                    );
                }
                let code_is_text = matches!(header.code, OpCode::Text);
                if !header.fin {
                    if code_is_text && self.config.validate_utf8.is_fast_fail() && !utf8_valid(
                        data.as_slice(),
                    ) {
                        return Err(
                            WsError::ProtocolError {
                                close_code: 1007,
                                error: ProtocolError::InvalidUtf8,
                            },
                        );
                    }
                    self.fragmented = true;
                    self.fragmented_type = header.code;
                    self.fragmented_data = data;
                    let res = self.receive(stream);
                    proof {
                        if res is Ok {
                            match spec_receive_one(
                                s0,
                                old(self).de_enabled(),
                                old(self).de_hist(),
                                old(self).local_nct(),
                            ) {
                                OneOutcome::Got { header: h_, data: d_, used: u_, hist2: hh_ } => {
                                    let inner = spec_receive(
                                        s0.skip(u_),
                                        old(self).config,
                                        old(self).de_enabled(),
                                        hh_,
                                        old(self).local_nct(),
                                        true,
                                        h_.code,
                                        d_,
                                    );
                                    lemma_receive_used_bounds(
                                        s0.skip(u_),
                                        old(self).config,
                                        old(self).de_enabled(),
                                        hh_,
                                        old(self).local_nct(),
                                        true,
                                        h_.code,
                                        d_,
                                    );
                                    match inner {
                                        RecvOutcome::Msg { used: u2_, .. } => {
                                            lemma_skip_skip(s0, u_, u2_);
                                        },
                                        _ => {},
                                    }
                                },
                                _ => {},
                            }
                        }
                    }
                    res
                } else {
                    if code_is_text && self.config.validate_utf8.should_check() && !utf8_valid(
                        data.as_slice(),
                    ) {
                        return Err(
                            WsError::ProtocolError {
                                close_code: 1007,
                                error: ProtocolError::InvalidUtf8,
                            },
                        );
                    }
                    let copy = clone_vec(&data);
                    self.fragmented_data = copy;
                    Ok((header, data))
                }
            },
            _ => Ok((header, data)),
        }
    }

    /// As `receive`; kept for callers that want to edit the returned bytes.
    pub fn receive_mut(&mut self, stream: &mut ReadStream) -> (r: Result<
        (SimplifiedHeader, Vec<u8>),
        WsError,
    >)
        requires
            old(self).wf(),
            old(stream).wf(),
        ensures
            final(self).wf(),
            final(stream).wf(),
            old(self).same_shape(*final(self)),
            recv_post(
                *old(self),
                old(stream).remaining(),
                *final(self),
                final(stream).remaining(),
                r,
            ),
            // Round trip: what a symmetric sender with a freshly reset
            // compressor emitted for payload p comes back byte-equal.
            forall|p: Seq<u8>, k: Option<MaskKey>|
                (old(self).de_enabled() && old(self).de_hist().len() == 0 && !old(self).fragmented
                    && old(self).config.merge_frame && strip_trailer(
                    deflate_of(Seq::<Seq<u8>>::empty(), p),
                ).len() <= u64::MAX && old(stream).remaining()
                    == #[trigger] compressed_message_wire(OpCode::Binary, k, p)) ==> r is Ok
                    && r->Ok_0.0.code == OpCode::Binary && r->Ok_0.0.fin && r->Ok_0.1@ == p,
    {
        self.receive(stream)
    }
}

} // verus!
