//! The write pipeline: fragmentation, per-fragment compression, masking and
//! frame emission.

use vstd::prelude::*;

use crate::config::{FrameConfig, PMDConfig};
use crate::deflate::{deflate_of, strip_trailer, Compressor};
use crate::frame::{apply_mask, copy_slice_range, ctor_header, spec_frame_wire, OwnedFrame};
use crate::stream::WriteStream;
use crate::types::{MaskKey, OpCode, ProtocolError, SimplifiedHeader, WsError};

verus! {

// ---------------------------------------------------------------------------
// The model of what `send` puts on the wire
// ---------------------------------------------------------------------------

/// One outbound frame: its header, its mask key, and its logical payload
/// (after compression, before masking).
pub struct FrameModel {
    pub header: SimplifiedHeader,
    pub mask: Option<MaskKey>,
    pub payload: Seq<u8>,
}

/// The bytes of a run of frames, in order.
#[verifier::opaque]
pub open spec fn wire_of_frames(frames: Seq<FrameModel>) -> Seq<u8>
    decreases frames.len(),
{
    if frames.len() == 0 {
        Seq::<u8>::empty()
    } else {
        spec_frame_wire(frames[0].header, frames[0].mask, frames[0].payload) + wire_of_frames(
            frames.skip(1),
        )
    }
}

/// The application payload cut into fragments of at most `size` bytes;
/// `size == 0` disables fragmentation.
#[verifier::opaque]
pub open spec fn spec_chunks(payload: Seq<u8>, size: nat) -> Seq<Seq<u8>>
    decreases payload.len(),
{
    if size == 0 || payload.len() <= size {
        seq![payload]
    } else {
        seq![payload.take(size as int)] + spec_chunks(payload.skip(size as int), size)
    }
}

/// The frames that the data path emits for the given fragments: the opening
/// opcode on the first frame only, FIN on the last only, every fragment
/// independently compressed with RSV1 set when compression is on, and the
/// compressor history evolving per fragment (reset under no-context-takeover).
#[verifier::opaque]
pub open spec fn send_frames_model(
    code: OpCode,
    chunks: Seq<Seq<u8>>,
    keys: Seq<Option<MaskKey>>,
    compress: bool,
    hist: Seq<Seq<u8>>,
    nct: bool,
    first: bool,
) -> Seq<FrameModel>
    decreases chunks.len(),
{
    if chunks.len() == 0 {
        Seq::<FrameModel>::empty()
    } else {
        seq![send_head_frame(code, chunks, keys, compress, hist, first)] + send_frames_model(
            code,
            chunks.skip(1),
            keys.skip(1),
            compress,
            hist_step(hist, chunks[0], compress, nct),
            nct,
            false,
        )
    }
}

/// The first frame of a fragment run.
pub open spec fn send_head_frame(
    code: OpCode,
    chunks: Seq<Seq<u8>>,
    keys: Seq<Option<MaskKey>>,
    compress: bool,
    hist: Seq<Seq<u8>>,
    first: bool,
) -> FrameModel {
    FrameModel {
        header: SimplifiedHeader {
            fin: chunks.len() == 1,
            rsv1: compress,
            rsv2: false,
            rsv3: false,
            code: if first {
                code
            } else {
                OpCode::Continue
            },
        },
        mask: keys[0],
        payload: if compress {
            strip_trailer(deflate_of(hist, chunks[0]))
        } else {
            chunks[0]
        },
    }
}

/// The compressor history after one fragment.
pub open spec fn hist_step(hist: Seq<Seq<u8>>, chunk: Seq<u8>, compress: bool, nct: bool) -> Seq<
    Seq<u8>,
> {
    if !compress {
        hist
    } else if nct {
        Seq::<Seq<u8>>::empty()
    } else {
        hist.push(chunk)
    }
}

/// The compressor history after a whole message went out.
pub open spec fn hist_after(
    hist: Seq<Seq<u8>>,
    chunks: Seq<Seq<u8>>,
    compress: bool,
    nct: bool,
) -> Seq<Seq<u8>> {
    if !compress {
        hist
    } else if nct {
        Seq::<Seq<u8>>::empty()
    } else {
        hist + chunks
    }
}

/// Everything `send` emits for one call: a single plain frame for an empty
/// payload or a control opcode, else the fragmented data frames.
pub open spec fn spec_send(
    code: OpCode,
    payload: Seq<u8>,
    keys: Seq<Option<MaskKey>>,
    compress: bool,
    hist: Seq<Seq<u8>>,
    nct: bool,
    frag: nat,
) -> Seq<FrameModel> {
    if payload.len() == 0 || !code.is_data() {
        seq![
            FrameModel {
                header: SimplifiedHeader { fin: true, rsv1: false, rsv2: false, rsv3: false, code },
                mask: keys[0],
                payload,
            },
        ]
    } else {
        send_frames_model(code, spec_chunks(payload, frag), keys, compress, hist, nct, true)
    }
}

/// The first fragment and the rest of the cut.
pub proof fn lemma_chunks_head(payload: Seq<u8>, size: nat)
    requires
        payload.len() > 0,
    ensures
        ({
            let chunks = spec_chunks(payload, size);
            &&& chunks.len() >= 1
            &&& (size == 0 || payload.len() <= size ==> chunks == seq![payload] && chunks.len()
                == 1)
            &&& (size > 0 && payload.len() > size ==> chunks[0] == payload.take(size as int)
                && chunks.skip(1) == spec_chunks(payload.skip(size as int), size))
        }),
{
    reveal(spec_chunks);
    let chunks = spec_chunks(payload, size);
    if size > 0 && payload.len() > size {
        assert(chunks.skip(1) =~= spec_chunks(payload.skip(size as int), size));
    }
}

/// A cut always yields at least one fragment.
pub proof fn lemma_chunks_len_pos(payload: Seq<u8>, size: nat)
    ensures
        spec_chunks(payload, size).len() >= 1,
{
    reveal(spec_chunks);
}

/// Sequence concatenation is associative.
proof fn lemma_concat_assoc<T>(a: Seq<T>, b: Seq<T>, c: Seq<T>)
    ensures
        (a + b) + c == a + (b + c),
{
    assert((a + b) + c =~= a + (b + c));
}

/// One fragment folded into the whole-message history.
proof fn lemma_hist_after_step(hist: Seq<Seq<u8>>, chunks: Seq<Seq<u8>>, nct: bool)
    requires
        chunks.len() >= 1,
    ensures
        hist_after(hist, chunks, true, nct) == hist_after(
            hist_step(hist, chunks[0], true, nct),
            chunks.skip(1),
            true,
            nct,
        ),
        chunks.len() == 1 ==> hist_after(hist, chunks, true, nct) == hist_step(
            hist,
            chunks[0],
            true,
            nct,
        ),
{
    if !nct {
        assert(hist + chunks =~= hist.push(chunks[0]) + chunks.skip(1));
        if chunks.len() == 1 {
            assert(hist.push(chunks[0]) + chunks.skip(1) =~= hist.push(chunks[0]));
        }
    }
}

/// Peeling one frame off the model: the head frame's wire bytes followed by
/// the model of the remaining fragments under the stepped history.
pub proof fn lemma_send_frames_unfold(
    code: OpCode,
    chunks: Seq<Seq<u8>>,
    keys: Seq<Option<MaskKey>>,
    compress: bool,
    hist: Seq<Seq<u8>>,
    nct: bool,
    first: bool,
)
    requires
        chunks.len() >= 1,
    ensures
        ({
            let frames = send_frames_model(code, chunks, keys, compress, hist, nct, first);
            let f0 = send_head_frame(code, chunks, keys, compress, hist, first);
            let tail = send_frames_model(
                code,
                chunks.skip(1),
                keys.skip(1),
                compress,
                hist_step(hist, chunks[0], compress, nct),
                nct,
                false,
            );
            frames == seq![f0] + tail && frames.len() == 1 + tail.len() && wire_of_frames(frames)
                == spec_frame_wire(f0.header, f0.mask, f0.payload) + wire_of_frames(tail)
        }),
{
    reveal(send_frames_model);
    reveal(wire_of_frames);
    let frames = send_frames_model(code, chunks, keys, compress, hist, nct, first);
    let f0 = send_head_frame(code, chunks, keys, compress, hist, first);
    let tail = send_frames_model(
        code,
        chunks.skip(1),
        keys.skip(1),
        compress,
        hist_step(hist, chunks[0], compress, nct),
        nct,
        false,
    );
    assert(frames == seq![f0] + tail);
    assert(frames[0] == f0);
    assert(frames.skip(1) =~= tail);
    assert(wire_of_frames(frames) == spec_frame_wire(f0.header, f0.mask, f0.payload)
        + wire_of_frames(frames.skip(1)));
}

/// The model of a single fragment is a single frame.
pub proof fn lemma_send_frames_single(
    code: OpCode,
    chunks: Seq<Seq<u8>>,
    keys: Seq<Option<MaskKey>>,
    compress: bool,
    hist: Seq<Seq<u8>>,
    nct: bool,
    first: bool,
)
    requires
        chunks.len() == 1,
    ensures
        ({
            let frames = send_frames_model(code, chunks, keys, compress, hist, nct, first);
            let f0 = send_head_frame(code, chunks, keys, compress, hist, first);
            frames == seq![f0] && wire_of_frames(frames) == spec_frame_wire(
                f0.header,
                f0.mask,
                f0.payload,
            )
        }),
{
    reveal_with_fuel(send_frames_model, 2);
    reveal_with_fuel(wire_of_frames, 2);
    lemma_send_frames_unfold(code, chunks, keys, compress, hist, nct, first);
    let f0 = send_head_frame(code, chunks, keys, compress, hist, first);
    assert(chunks.skip(1) =~= Seq::<Seq<u8>>::empty());
    assert(send_frames_model(
        code,
        chunks.skip(1),
        keys.skip(1),
        compress,
        hist_step(hist, chunks[0], compress, nct),
        nct,
        false,
    ) =~= Seq::<FrameModel>::empty());
    assert(wire_of_frames(Seq::<FrameModel>::empty()) =~= Seq::<u8>::empty());
    assert(send_frames_model(code, chunks, keys, compress, hist, nct, first) =~= seq![f0]
        + Seq::<FrameModel>::empty());
    assert(seq![f0] + Seq::<FrameModel>::empty() =~= seq![f0]);
    assert(spec_frame_wire(f0.header, f0.mask, f0.payload) + Seq::<u8>::empty() =~= spec_frame_wire(
        f0.header,
        f0.mask,
        f0.payload,
    ));
}

/// The contract of `send`, relating the write state and outbound bytes
/// before and after one call.
pub open spec fn send_post(
    st0: DeflateWriteState,
    out0: Seq<u8>,
    st1: DeflateWriteState,
    out1: Seq<u8>,
    code: OpCode,
    payload: Seq<u8>,
    r: Result<(), WsError>,
) -> bool {
    &&& (!code.is_data() && payload.len() > 125 ==> r is Err && r->Err_0 == (
    WsError::ProtocolError { close_code: 1002, error: ProtocolError::ControlPayloadTooLarge })
        && out1 == out0 && st1.com_hist() == st0.com_hist())
    &&& (r is Err <==> !code.is_data() && payload.len() > 125)
    &&& (r is Ok ==> exists|keys: Seq<Option<MaskKey>>|
        {
            &&& #[trigger] keys.len() == spec_send(
                code,
                payload,
                keys,
                st0.compress_enabled() && code.is_data(),
                st0.com_hist(),
                st0.local_nct(),
                st0.config.auto_fragment_size as nat,
            ).len()
            &&& forall|i: int|
                0 <= i < keys.len() ==> (#[trigger] keys[i] is Some <==> st0.config.mask_send_frame)
            &&& out1 == out0 + wire_of_frames(
                spec_send(
                    code,
                    payload,
                    keys,
                    st0.compress_enabled() && code.is_data(),
                    st0.com_hist(),
                    st0.local_nct(),
                    st0.config.auto_fragment_size as nat,
                ),
            )
            &&& st1.com_hist() == (if code.is_data() && payload.len() > 0 {
                hist_after(
                    st0.com_hist(),
                    spec_chunks(payload, st0.config.auto_fragment_size as nat),
                    st0.compress_enabled(),
                    st0.local_nct(),
                )
            } else {
                st0.com_hist()
            })
        })
}

/// The contract of `send_owned_frame`.
pub open spec fn send_owned_post(
    st0: DeflateWriteState,
    out0: Seq<u8>,
    st1: DeflateWriteState,
    out1: Seq<u8>,
    frame: OwnedFrame,
    r: Result<(), WsError>,
) -> bool {
    &&& (!(frame.code.is_data() && st0.compress_enabled()) ==> r is Ok && out1 == out0
        + spec_frame_wire(frame.header(), frame.mask, frame.unmasked()) && st1.com_hist()
        == st0.com_hist())
    &&& (frame.code.is_data() && st0.compress_enabled() ==> r is Ok && out1 == out0
        + spec_frame_wire(
        SimplifiedHeader {
            fin: frame.fin,
            rsv1: true,
            rsv2: false,
            rsv3: false,
            code: frame.code,
        },
        frame.mask,
        strip_trailer(deflate_of(st0.com_hist(), frame.unmasked())),
    ) && st1.com_hist() == hist_step(st0.com_hist(), frame.unmasked(), true, st0.local_nct()))
}

/// Counting fragments: a non-empty payload cut at `size > 0` yields
/// `ceil(len / size)` fragments.
pub proof fn lemma_chunks_count(payload: Seq<u8>, size: nat)
    requires
        size > 0,
        payload.len() > 0,
    ensures
        spec_chunks(payload, size).len() == (payload.len() + size - 1) / (size as int),
    decreases payload.len(),
{
    reveal(spec_chunks);
    if payload.len() <= size {
        assert((payload.len() + size - 1) / (size as int) == 1) by (nonlinear_arith)
            requires
                0 < payload.len() <= size,
        ;
    } else {
        lemma_chunks_count(payload.skip(size as int), size);
        assert(payload.skip(size as int).len() == payload.len() - size);
        assert((payload.len() + size - 1) / (size as int) == 1 + ((payload.len() - size) + size
            - 1) / (size as int)) by (nonlinear_arith)
            requires
                size > 0,
                payload.len() > size,
        ;
    }
}

/// Frame discipline of the fragmented data path: one frame per fragment, FIN
/// exactly on the last, RSV1 exactly when the message is compressed, no other
/// reserved bits, the opening opcode only on the first frame, and each
/// frame's mask key taken from the given run.
pub proof fn lemma_send_frames_shape(
    code: OpCode,
    chunks: Seq<Seq<u8>>,
    keys: Seq<Option<MaskKey>>,
    compress: bool,
    hist: Seq<Seq<u8>>,
    nct: bool,
    first: bool,
)
    requires
        chunks.len() >= 1,
        keys.len() == chunks.len(),
    ensures
        ({
            let frames = send_frames_model(code, chunks, keys, compress, hist, nct, first);
            &&& frames.len() == chunks.len()
            &&& forall|i: int|
                0 <= i < frames.len() ==> {
                    &&& ((#[trigger] frames[i]).header.fin <==> i == frames.len() - 1)
                    &&& frames[i].header.rsv1 == compress
                    &&& !frames[i].header.rsv2
                    &&& !frames[i].header.rsv3
                    &&& frames[i].header.code == (if i == 0 && first {
                        code
                    } else {
                        OpCode::Continue
                    })
                    &&& frames[i].mask == keys[i]
                    &&& !compress ==> frames[i].payload == chunks[i]
                }
        }),
    decreases chunks.len(),
{
    lemma_send_frames_unfold(code, chunks, keys, compress, hist, nct, first);
    let frames = send_frames_model(code, chunks, keys, compress, hist, nct, first);
    let f0 = send_head_frame(code, chunks, keys, compress, hist, first);
    let hist2 = hist_step(hist, chunks[0], compress, nct);
    if chunks.len() == 1 {
        reveal(send_frames_model);
        assert(chunks.skip(1).len() == 0);
        assert(frames =~= seq![f0]);
    } else {
        lemma_send_frames_shape(code, chunks.skip(1), keys.skip(1), compress, hist2, nct, false);
        let tail = send_frames_model(code, chunks.skip(1), keys.skip(1), compress, hist2, nct, false);
        assert forall|i: int| 0 <= i < frames.len() implies {
            &&& ((#[trigger] frames[i]).header.fin <==> i == frames.len() - 1)
            &&& frames[i].header.rsv1 == compress
            &&& !frames[i].header.rsv2
            &&& !frames[i].header.rsv3
            &&& frames[i].header.code == (if i == 0 && first {
                code
            } else {
                OpCode::Continue
            })
            &&& frames[i].mask == keys[i]
            &&& !compress ==> frames[i].payload == chunks[i]
        } by {
            if i == 0 {
                assert(frames[0] == f0);
            } else {
                assert(frames[i] == tail[i - 1]);
                assert(keys.skip(1)[i - 1] == keys[i]);
                assert(chunks.skip(1)[i - 1] == chunks[i]);
            }
        }
    }
}

/// A control opcode or an empty payload always goes out as exactly one frame
/// with FIN set and RSV1 clear, carrying the payload as is.
pub proof fn lemma_send_single_plain(
    code: OpCode,
    payload: Seq<u8>,
    keys: Seq<Option<MaskKey>>,
    compress: bool,
    hist: Seq<Seq<u8>>,
    nct: bool,
    frag: nat,
)
    requires
        payload.len() == 0 || !code.is_data(),
    ensures
        ({
            let frames = spec_send(code, payload, keys, compress, hist, nct, frag);
            &&& frames.len() == 1
            &&& frames[0].header.fin
            &&& !frames[0].header.rsv1
            &&& !frames[0].header.rsv2
            &&& !frames[0].header.rsv3
            &&& frames[0].header.code == code
            &&& frames[0].payload == payload
            &&& frames[0].mask == keys[0]
        }),
{
}

/// The automatically fragmented send of a non-empty data payload emits
/// exactly `ceil(len / n)` frames; FIN on the last alone, RSV1 on every
/// fragment of a compressed message, the opening opcode on the first frame
/// and Continue on the rest.
pub proof fn lemma_auto_fragment_shape(
    code: OpCode,
    payload: Seq<u8>,
    keys: Seq<Option<MaskKey>>,
    compress: bool,
    hist: Seq<Seq<u8>>,
    nct: bool,
    frag: nat,
)
    requires
        code.is_data(),
        payload.len() > 0,
        frag > 0,
        keys.len() == spec_chunks(payload, frag).len(),
    ensures
        ({
            let frames = spec_send(code, payload, keys, compress, hist, nct, frag);
            &&& frames.len() == (payload.len() + frag - 1) / (frag as int)
            &&& forall|i: int|
                0 <= i < frames.len() ==> {
                    &&& ((#[trigger] frames[i]).header.fin <==> i == frames.len() - 1)
                    &&& frames[i].header.rsv1 == compress
                    &&& !frames[i].header.rsv2
                    &&& !frames[i].header.rsv3
                    &&& frames[i].header.code == (if i == 0 {
                        code
                    } else {
                        OpCode::Continue
                    })
                }
        }),
{
    lemma_chunks_count(payload, frag);
    lemma_chunks_len_pos(payload, frag);
    lemma_send_frames_shape(code, spec_chunks(payload, frag), keys, compress, hist, nct, true);
}

/// No context takeover leaves the compressor as freshly initialized: after
/// any message its output is a function of the new input alone.
pub proof fn lemma_nct_resets_history(hist: Seq<Seq<u8>>, chunks: Seq<Seq<u8>>, input: Seq<u8>)
    ensures
        deflate_of(hist_after(hist, chunks, true, true), input) == deflate_of(
            Seq::<Seq<u8>>::empty(),
            input,
        ),
{
}

// ---------------------------------------------------------------------------
// Trusted randomness
// ---------------------------------------------------------------------------

/// Relies on rand::random: four bytes from the thread-local generator.
#[verifier::external_body]
fn random_mask_key() -> (r: MaskKey) {
    let b: [u8; 4] = rand::random();
    MaskKey { b0: b[0], b1: b[1], b2: b[2], b3: b[3] }
}

/// A fresh key exactly when outbound masking is configured.
fn gen_mask(mask_send: bool) -> (r: Option<MaskKey>)
    ensures
        r is Some <==> mask_send,
{
    if mask_send {
        Some(random_mask_key())
    } else {
        None
    }
}

// ---------------------------------------------------------------------------
// The write state
// ---------------------------------------------------------------------------

/// Owns the frame configuration, the negotiated extension parameters and the
/// compressor (present exactly when the extension was negotiated).
pub struct DeflateWriteState {
    pub config: FrameConfig,
    pub pmd: Option<PMDConfig>,
    pub com: Option<Compressor>,
    pub is_server: bool,
}

impl DeflateWriteState {
    pub open spec fn wf(self) -> bool {
        self.com is Some <==> self.pmd is Some
    }

    pub open spec fn compress_enabled(self) -> bool {
        self.com is Some
    }

    /// The compressor's chunk history; empty when compression is off.
    pub open spec fn com_hist(self) -> Seq<Seq<u8>> {
        match self.com {
            Some(c) => c.history(),
            None => Seq::<Seq<u8>>::empty(),
        }
    }

    pub open spec fn local_nct(self) -> bool {
        match self.pmd {
            Some(p) => p.local_no_context_takeover(self.is_server),
            None => false,
        }
    }

    /// Fields that one send never changes.
    pub open spec fn same_shape(self, other: Self) -> bool {
        self.config == other.config && self.pmd == other.pmd && self.is_server == other.is_server
            && (self.com is Some <==> other.com is Some)
    }

    pub fn with_config(config: FrameConfig, pmd: Option<PMDConfig>, is_server: bool) -> (r: Self)
        ensures
            r.wf(),
            r.config == config,
            r.pmd == pmd,
            r.is_server == is_server,
            r.com_hist() == Seq::<Seq<u8>>::empty(),
            r.compress_enabled() <==> pmd is Some,
    {
        let com = match pmd {
            Some(_) => Some(Compressor::new()),
            None => None,
        };
        DeflateWriteState { config, pmd, com, is_server }
    }

    fn local_nct_exec(&self) -> (r: bool)
        ensures
            r == self.local_nct(),
    {
        match &self.pmd {
            Some(p) => {
                if self.is_server {
                    p.server_no_context_takeover
                } else {
                    p.client_no_context_takeover
                }
            },
            None => false,
        }
    }

    /// Emit one frame as given: control frames and, without compression, data
    /// frames go out verbatim; with compression the payload is compressed in
    /// place, the flush trailer stripped, RSV1 set, and the frame re-masked
    /// under its previous key.  No fragmentation, no validation.
    pub fn send_owned_frame(&mut self, stream: &mut WriteStream, frame: OwnedFrame) -> (r: Result<
        (),
        WsError,
    >)
        requires
            old(self).wf(),
        ensures
            final(self).wf(),
            old(self).same_shape(*final(self)),
            send_owned_post(
                *old(self),
                old(stream).out(),
                *final(self),
                final(stream).out(),
                frame,
                r,
            ),
    {
        let is_data = frame.code.is_data();
        let nct = self.local_nct_exec();
        if is_data {
            match &mut self.com {
                Some(c) => {
                    let mut f = frame;
                    let prev = f.unmask();
                    match c.compress(f.payload.as_slice()) {
                        Ok(mut out) => {
                            let nl = out.len() - 4;
                            out.truncate(nl);
                            proof {
                                assert(out@ =~= strip_trailer(
                                    deflate_of(old(self).com_hist(), frame.unmasked()),
                                ));
                            }
                            let mut nf = OwnedFrame::new(f.code, prev, out.as_slice());
                            nf.set_rsv1(true);
                            nf.set_fin(f.fin);
                            write_frame(stream, &nf);
                            if nct {
                                c.reset();
                            }
                            Ok(())
                        },
                        Err(e) => Err(WsError::CompressFailed(e)),
                    }
                },
                None => {
                    write_frame(stream, &frame);
                    Ok(())
                },
            }
        } else {
            write_frame(stream, &frame);
            Ok(())
        }
    }

    /// Send one application message: cut the payload into fragments of
    /// `auto_fragment_size` bytes (one fragment when the setting is zero or
    /// the payload is empty), compress each fragment when the extension is on,
    /// mask when configured, and emit the frames in order.  A control payload
    /// over 125 bytes is refused; every other send succeeds.
    pub fn send(&mut self, stream: &mut WriteStream, code: OpCode, payload: &[u8]) -> (r: Result<
        (),
        WsError,
    >)
        requires
            old(self).wf(),
        ensures
            final(self).wf(),
            old(self).same_shape(*final(self)),
            send_post(
                *old(self),
                old(stream).out(),
                *final(self),
                final(stream).out(),
                code,
                payload@,
                r,
            ),
    {
        let is_data = code.is_data();
        if !is_data && payload.len() > 125 {
            return Err(
                WsError::ProtocolError {
                    close_code: 1002,
                    error: ProtocolError::ControlPayloadTooLarge,
                },
            );
        }
        if payload.len() == 0 || !is_data {
            let key = gen_mask(self.config.mask_send_frame);
            let f = OwnedFrame::new(code, key, payload);
            write_frame(stream, &f);
            proof {
                reveal_with_fuel(wire_of_frames, 2);
                let keys = seq![key];
                let frames = spec_send(
                    code,
                    payload@,
                    keys,
                    old(self).compress_enabled() && code.spec_is_data(),
                    old(self).com_hist(),
                    old(self).local_nct(),
                    old(self).config.auto_fragment_size as nat,
                );
                assert(frames.skip(1) =~= Seq::<FrameModel>::empty());
                assert(wire_of_frames(frames.skip(1)) =~= Seq::<u8>::empty());
                assert(wire_of_frames(frames) == spec_frame_wire(
                    frames[0].header,
                    frames[0].mask,
                    frames[0].payload,
                ) + wire_of_frames(frames.skip(1)));
                assert(spec_frame_wire(f.header(), key, payload@) + Seq::<u8>::empty()
                    =~= spec_frame_wire(f.header(), key, payload@));
                assert(keys.len() == frames.len());
                assert(forall|i: int|
                    0 <= i < keys.len() ==> (#[trigger] keys[i] is Some <==> old(self).config.mask_send_frame));
            }
            return Ok(());
        }
        let (res, keys) = self.send_data(stream, code, payload, 0, true);
        proof {
            if res is Ok {
                assert(payload@.skip(0) =~= payload@);
                let ks = keys@;
                assert(ks.len() == spec_send(
                    code,
                    payload@,
                    ks,
                    old(self).compress_enabled() && code.spec_is_data(),
                    old(self).com_hist(),
                    old(self).local_nct(),
                    old(self).config.auto_fragment_size as nat,
                ).len());
            }
        }
        res
    }

    /// Compress (when the extension is on), mask and write one fragment.
    #[verifier::spinoff_prover]
    fn emit_fragment(
        &mut self,
        stream: &mut WriteStream,
        fcode: OpCode,
        fin: bool,
        key: Option<MaskKey>,
        chunk: Vec<u8>,
    ) -> (r: Result<(), WsError>)
        requires
            old(self).wf(),
        ensures
            final(self).wf(),
            old(self).same_shape(*final(self)),
            r is Ok,
            r is Ok ==> ({
                let logical = if old(self).compress_enabled() {
                    strip_trailer(deflate_of(old(self).com_hist(), chunk@))
                } else {
                    chunk@
                };
                let h = SimplifiedHeader {
                    fin,
                    rsv1: old(self).compress_enabled(),
                    rsv2: false,
                    rsv3: false,
                    code: fcode,
                };
                final(stream).out() == old(stream).out() + spec_frame_wire(h, key, logical)
                    && final(self).com_hist() == hist_step(
                    old(self).com_hist(),
                    chunk@,
                    old(self).compress_enabled(),
                    old(self).local_nct(),
                )
            }),
    {
        let nct = self.local_nct_exec();
        match &mut self.com {
            Some(c) => {
                match c.compress(chunk.as_slice()) {
                    Ok(mut out) => {
                        let nl = out.len() - 4;
                        out.truncate(nl);
                        proof {
                            assert(out@ =~= strip_trailer(
                                deflate_of(old(self).com_hist(), chunk@),
                            ));
                        }
                        let header = ctor_header(fin, true, false, false, key, fcode, out.len() as u64);
                        stream.write_all(header.as_slice());
                        let ghost logical = out@;
                        match key {
                            Some(k) => apply_mask(&mut out, k),
                            None => {},
                        }
                        stream.write_all(out.as_slice());
                        if nct {
                            c.reset();
                        }
                        proof {
                            let h = SimplifiedHeader {
                                fin,
                                rsv1: true,
                                rsv2: false,
                                rsv3: false,
                                code: fcode,
                            };
                            assert(stream.out() =~= old(stream).out() + spec_frame_wire(
                                h,
                                key,
                                logical,
                            ));
                        }
                        Ok(())
                    },
                    Err(e) => Err(WsError::CompressFailed(e)),
                }
            },
            None => {
                let ghost logical = chunk@;
                let header = ctor_header(fin, false, false, false, key, fcode, chunk.len() as u64);
                stream.write_all(header.as_slice());
                let mut data = chunk;
                match key {
                    Some(k) => apply_mask(&mut data, k),
                    None => {},
                }
                stream.write_all(data.as_slice());
                proof {
                    let h = SimplifiedHeader {
                        fin,
                        rsv1: false,
                        rsv2: false,
                        rsv3: false,
                        code: fcode,
                    };
                    assert(stream.out() =~= old(stream).out() + spec_frame_wire(h, key, logical));
                }
                Ok(())
            },
        }
    }

    /// Emit the fragments of `payload[offset..]`; `first` marks the fragment
    /// that opens the message.  The ghost result is the run of mask keys used.
    #[verifier::rlimit(100)]
    #[verifier::spinoff_prover]
    fn send_data(
        &mut self,
        stream: &mut WriteStream,
        code: OpCode,
        payload: &[u8],
        offset: usize,
        first: bool,
    ) -> (r: (Result<(), WsError>, Ghost<Seq<Option<MaskKey>>>))
        requires
            old(self).wf(),
            code.spec_is_data(),
            offset < payload@.len(),
        ensures
            final(self).wf(),
            old(self).same_shape(*final(self)),
            r.0 is Ok,
            r.0 is Ok ==> ({
                let chunks = spec_chunks(
                    payload@.skip(offset as int),
                    old(self).config.auto_fragment_size as nat,
                );
                let keys = r.1@;
                &&& keys.len() == chunks.len()
                &&& send_frames_model(
                    code,
                    chunks,
                    keys,
                    old(self).compress_enabled(),
                    old(self).com_hist(),
                    old(self).local_nct(),
                    first,
                ).len() == chunks.len()
                &&& forall|i: int|
                    0 <= i < keys.len() ==> (#[trigger] keys[i] is Some <==> old(self).config.mask_send_frame)
                &&& final(stream).out() == old(stream).out() + wire_of_frames(
                    send_frames_model(
                        code,
                        chunks,
                        keys,
                        old(self).compress_enabled(),
                        old(self).com_hist(),
                        old(self).local_nct(),
                        first,
                    ),
                )
                &&& final(self).com_hist() == hist_after(
                    old(self).com_hist(),
                    chunks,
                    old(self).compress_enabled(),
                    old(self).local_nct(),
                )
            }),
        decreases payload@.len() - offset,
    {
        let ghost frag_n = self.config.auto_fragment_size as nat;
        let ghost rest = payload@.skip(offset as int);
        let ghost chunks = spec_chunks(rest, frag_n);
        let ghost compress = self.compress_enabled();
        let ghost hist0 = self.com_hist();
        let frag = self.config.auto_fragment_size;
        let len = payload.len();
        let cs: usize = if frag > 0 && frag < len - offset {
            frag
        } else {
            len - offset
        };
        let end = offset + cs;
        let fin = end == len;
        let fcode = if first {
            code
        } else {
            OpCode::Continue
        };
        let key = gen_mask(self.config.mask_send_frame);
        let chunk = copy_slice_range(payload, offset, end);
        let ghost chunk_s = chunk@;
        proof {
            lemma_chunks_head(rest, frag_n);
            if frag_n == 0 || rest.len() <= frag_n {
                assert(chunk_s =~= rest);
            } else {
                assert(chunk_s =~= rest.take(frag_n as int));
            }
            assert(chunk_s == chunks[0]);
        }
        let res1 = self.emit_fragment(stream, fcode, fin, key, chunk);
        match res1 {
            Err(e) => {
                let ghost nokeys: Seq<Option<MaskKey>> = Seq::empty();
                return (Err(e), Ghost(nokeys));
            },
            Ok(()) => {},
        }
        let ghost f0 = send_head_frame(code, chunks, seq![key], compress, hist0, first);
        if fin {
            proof {
                assert(chunks.len() == 1);
                lemma_send_frames_single(
                    code,
                    chunks,
                    seq![key],
                    compress,
                    hist0,
                    old(self).local_nct(),
                    first,
                );
                if compress {
                    lemma_hist_after_step(hist0, chunks, old(self).local_nct());
                }
                let keys = seq![key];
                let frames = send_frames_model(
                    code,
                    chunks,
                    keys,
                    compress,
                    hist0,
                    old(self).local_nct(),
                    first,
                );
                assert(keys.len() == chunks.len());
                assert(frames.len() == chunks.len());
                assert(forall|i: int|
                    0 <= i < keys.len() ==> (#[trigger] keys[i] is Some <==> old(
                        self,
                    ).config.mask_send_frame));
                assert(stream.out() == old(stream).out() + wire_of_frames(frames));
                assert(self.com_hist() == hist_after(hist0, chunks, compress, old(self).local_nct()));
            }
            let ghost one_key: Seq<Option<MaskKey>> = seq![key];
            (Ok(()), Ghost(one_key))
        } else {
            let ghost hist1 = self.com_hist();
            let (res, tail_keys) = self.send_data(stream, code, payload, end, false);
            let ghost all_keys = seq![key] + tail_keys@;
            proof {
                if res is Ok {
                    assert(payload@.skip(end as int) =~= rest.skip(cs as int));
                    let tail_chunks = spec_chunks(rest.skip(cs as int), frag_n);
                    assert(chunks.skip(1) =~= tail_chunks);
                    assert(all_keys.skip(1) =~= tail_keys@);
                    assert(all_keys[0] == key);
                    lemma_send_frames_unfold(
                        code,
                        chunks,
                        all_keys,
                        compress,
                        hist0,
                        old(self).local_nct(),
                        first,
                    );
                    assert(send_head_frame(code, chunks, all_keys, compress, hist0, first) == f0);
                    assert(hist1 == hist_step(hist0, chunks[0], compress, old(self).local_nct()));
                    if compress {
                        lemma_hist_after_step(hist0, chunks, old(self).local_nct());
                    }
                    lemma_chunks_len_pos(rest.skip(cs as int), frag_n);
                    assert(chunks.len() == 1 + tail_chunks.len());
                    let frames = send_frames_model(
                        code,
                        chunks,
                        all_keys,
                        compress,
                        hist0,
                        old(self).local_nct(),
                        first,
                    );
                    assert(all_keys.len() == chunks.len());
                    assert(frames.len() == chunks.len());
                    assert(forall|i: int|
                        0 <= i < all_keys.len() ==> (#[trigger] all_keys[i] is Some <==> old(
                            self,
                        ).config.mask_send_frame));
                    let w0 = spec_frame_wire(f0.header, f0.mask, f0.payload);
                    let tail_frames = send_frames_model(
                        code,
                        tail_chunks,
                        tail_keys@,
                        compress,
                        hist1,
                        old(self).local_nct(),
                        false,
                    );
                    let wt = wire_of_frames(tail_frames);
                    assert(f0.mask == key);
                    assert(f0.header.fin == fin);
                    lemma_concat_assoc(old(stream).out(), w0, wt);
                    assert(stream.out() == old(stream).out() + wire_of_frames(frames));
                    assert(self.com_hist() == hist_after(
                        hist0,
                        chunks,
                        compress,
                        old(self).local_nct(),
                    ));
                }
            }
            let ghost nokeys: Seq<Option<MaskKey>> = Seq::empty();
            match res {
                Ok(()) => (Ok(()), Ghost(all_keys)),
                Err(e) => (Err(e), Ghost(nokeys)),
            }
        }
    }
}

/// Append one frame, as stored, to the outbound buffer.
fn write_frame(stream: &mut WriteStream, frame: &OwnedFrame)
    ensures
        final(stream).out() == old(stream).out() + spec_frame_wire(
            frame.header(),
            frame.mask,
            frame.unmasked(),
        ),
{
    let header = ctor_header(
        frame.fin,
        frame.rsv1,
        false,
        false,
        frame.mask,
        frame.code,
        frame.payload.len() as u64,
    );
    stream.write_all(header.as_slice());
    stream.write_all(frame.payload.as_slice());
    proof {
        match frame.mask {
            Some(k) => {
                crate::frame::lemma_mask_involutive(frame.payload@, k);
            },
            None => {},
        }
        assert(final(stream).out() =~= old(stream).out() + spec_frame_wire(
            frame.header(),
            frame.mask,
            frame.unmasked(),
        ));
    }
}

} // verus!
