//! The codec: both pipelines over one transport buffer, and its split halves.

use vstd::prelude::*;
use vstd::string::StringSliceAdditionalSpecFns;

use crate::config::{FrameConfig, PMDConfig};
use crate::frame::OwnedFrame;
use crate::deflate::{deflate_of, strip_trailer};
use crate::reader::{compressed_message_wire, recv_post, DeflateReadState};
use crate::stream::{ReadStream, Stream, WriteStream};
use crate::types::{MaskKey, OpCode, SimplifiedHeader, WsError};
use crate::writer::{send_owned_post, send_post, DeflateWriteState};

verus! {

/// The payload of a Close frame: the code in big-endian, then the reason.
pub open spec fn close_payload(code: u16, msg: Seq<u8>) -> Seq<u8> {
    seq![(code / 256) as u8, (code % 256) as u8] + msg
}

/// Build the payload of a Close frame.
fn close_data(code: u16, msg: &[u8]) -> (r: Vec<u8>)
    ensures
        r@ == close_payload(code, msg@),
{
    let mut data: Vec<u8> = Vec::new();
    data.push((code / 256) as u8);
    data.push((code % 256) as u8);
    let mut i: usize = 0;
    while i < msg.len()
        invariant
            i <= msg@.len(),
            data@ == seq![(code / 256) as u8, (code % 256) as u8] + msg@.take(i as int),
        decreases msg@.len() - i,
    {
        data.push(msg[i]);
        i = i + 1;
        proof {
            assert(data@ =~= seq![(code / 256) as u8, (code % 256) as u8] + msg@.take(i as int));
        }
    }
    proof {
        assert(msg@.take(msg@.len() as int) =~= msg@);
    }
    data
}

/// Both pipelines over one bidirectional transport buffer.
pub struct DeflateCodec {
    pub read_state: DeflateReadState,
    pub write_state: DeflateWriteState,
    pub stream: Stream,
}

impl DeflateCodec {
    pub open spec fn wf(self) -> bool {
        self.read_state.wf() && self.write_state.wf() && self.stream.rd.wf()
    }

    /// Build a codec over an open transport with the given configuration;
    /// both pipelines start with fresh engines when the extension is on.
    pub fn new(
        stream: Stream,
        frame_config: FrameConfig,
        pmd_config: Option<PMDConfig>,
        is_server: bool,
    ) -> (r: Self)
        requires
            stream.rd.wf(),
        ensures
            r.wf(),
            r.stream == stream,
            r.read_state.config == frame_config,
            r.read_state.pmd == pmd_config,
            r.read_state.is_server == is_server,
            r.read_state.fragmented == false,
            r.read_state.fragmented_type == OpCode::Text,
            r.read_state.fragmented_data@ == Seq::<u8>::empty(),
            r.read_state.de_hist() == Seq::<Seq<u8>>::empty(),
            r.read_state.de_enabled() <==> pmd_config is Some,
            r.write_state.config == frame_config,
            r.write_state.pmd == pmd_config,
            r.write_state.is_server == is_server,
            r.write_state.com_hist() == Seq::<Seq<u8>>::empty(),
            r.write_state.compress_enabled() <==> pmd_config is Some,
    {
        let read_state = DeflateReadState::with_config(frame_config, pmd_config, is_server);
        let write_state = DeflateWriteState::with_config(frame_config, pmd_config, is_server);
        DeflateCodec { read_state, write_state, stream }
    }

    /// Mutable access to the transport buffer, for feeding and draining bytes.
    pub fn stream_mut(&mut self) -> (r: &mut Stream)
        ensures
            *r == old(self).stream,
            *final(self) == (DeflateCodec { stream: *final(r), ..*old(self) }),
    {
        &mut self.stream
    }

    /// Receive one message from the pending input.
    pub fn receive(&mut self) -> (r: Result<(SimplifiedHeader, Vec<u8>), WsError>)
        requires
            old(self).wf(),
        ensures
            final(self).wf(),
            old(self).read_state.same_shape(final(self).read_state),
            final(self).write_state == old(self).write_state,
            final(self).stream.wr == old(self).stream.wr,
            recv_post(
                old(self).read_state,
                old(self).stream.rd.remaining(),
                final(self).read_state,
                final(self).stream.rd.remaining(),
                r,
            ),
            // Round trip: what a symmetric sender with a freshly reset
            // compressor emitted for payload p comes back byte-equal.
            forall|p: Seq<u8>, k: Option<MaskKey>|
                (old(self).read_state.de_enabled() && old(self).read_state.de_hist().len() == 0
                    && !old(self).read_state.fragmented && old(self).read_state.config.merge_frame
                    && strip_trailer(deflate_of(Seq::<Seq<u8>>::empty(), p)).len() <= u64::MAX
                    && old(self).stream.rd.remaining()
                    == #[trigger] compressed_message_wire(OpCode::Binary, k, p)) ==> r is Ok
                    && r->Ok_0.0.code == OpCode::Binary && r->Ok_0.0.fin && r->Ok_0.1@ == p,
    {
        self.read_state.receive(&mut self.stream.rd)
    }

    /// Emit one frame as given; see the write state's method.
    pub fn send_owned_frame(&mut self, frame: OwnedFrame) -> (r: Result<(), WsError>)
        requires
            old(self).wf(),
        ensures
            final(self).wf(),
            old(self).write_state.same_shape(final(self).write_state),
            final(self).read_state == old(self).read_state,
            final(self).stream.rd == old(self).stream.rd,
            send_owned_post(
                old(self).write_state,
                old(self).stream.wr.out(),
                final(self).write_state,
                final(self).stream.wr.out(),
                frame,
                r,
            ),
    {
        self.write_state.send_owned_frame(&mut self.stream.wr, frame)
    }

    /// Send one message, fragmenting and compressing as configured.
    pub fn send(&mut self, code: OpCode, payload: &[u8]) -> (r: Result<(), WsError>)
        requires
            old(self).wf(),
        ensures
            final(self).wf(),
            old(self).write_state.same_shape(final(self).write_state),
            final(self).read_state == old(self).read_state,
            final(self).stream.rd == old(self).stream.rd,
            send_post(
                old(self).write_state,
                old(self).stream.wr.out(),
                final(self).write_state,
                final(self).stream.wr.out(),
                code,
                payload@,
                r,
            ),
    {
        self.write_state.send(&mut self.stream.wr, code, payload)
    }

    /// Send a Text message.
    pub fn text(&mut self, text: &str) -> (r: Result<(), WsError>)
        requires
            old(self).wf(),
        ensures
            final(self).wf(),
            old(self).write_state.same_shape(final(self).write_state),
            final(self).read_state == old(self).read_state,
            final(self).stream.rd == old(self).stream.rd,
            send_post(
                old(self).write_state,
                old(self).stream.wr.out(),
                final(self).write_state,
                final(self).stream.wr.out(),
                OpCode::Text,
                text.spec_bytes(),
                r,
            ),
    {
        self.write_state.send(&mut self.stream.wr, OpCode::Text, text.as_bytes())
    }

    /// Send a Binary message.
    pub fn binary(&mut self, data: &[u8]) -> (r: Result<(), WsError>)
        requires
            old(self).wf(),
        ensures
            final(self).wf(),
            old(self).write_state.same_shape(final(self).write_state),
            final(self).read_state == old(self).read_state,
            final(self).stream.rd == old(self).stream.rd,
            send_post(
                old(self).write_state,
                old(self).stream.wr.out(),
                final(self).write_state,
                final(self).stream.wr.out(),
                OpCode::Binary,
                data@,
                r,
            ),
    {
        self.send(OpCode::Binary, data)
    }

    /// Send a Ping control frame.
    pub fn ping(&mut self, data: &[u8]) -> (r: Result<(), WsError>)
        requires
            old(self).wf(),
        ensures
            final(self).wf(),
            old(self).write_state.same_shape(final(self).write_state),
            final(self).read_state == old(self).read_state,
            final(self).stream.rd == old(self).stream.rd,
            send_post(
                old(self).write_state,
                old(self).stream.wr.out(),
                final(self).write_state,
                final(self).stream.wr.out(),
                OpCode::Ping,
                data@,
                r,
            ),
    {
        self.send(OpCode::Ping, data)
    }

    /// Send a Pong control frame.
    pub fn pong(&mut self, data: &[u8]) -> (r: Result<(), WsError>)
        requires
            old(self).wf(),
        ensures
            final(self).wf(),
            old(self).write_state.same_shape(final(self).write_state),
            final(self).read_state == old(self).read_state,
            final(self).stream.rd == old(self).stream.rd,
            send_post(
                old(self).write_state,
                old(self).stream.wr.out(),
                final(self).write_state,
                final(self).stream.wr.out(),
                OpCode::Pong,
                data@,
                r,
            ),
    {
        self.send(OpCode::Pong, data)
    }

    /// Send a Close frame: the code in big-endian, then the reason bytes.
    pub fn close(&mut self, code: u16, msg: &[u8]) -> (r: Result<(), WsError>)
        requires
            old(self).wf(),
        ensures
            final(self).wf(),
            old(self).write_state.same_shape(final(self).write_state),
            final(self).read_state == old(self).read_state,
            final(self).stream.rd == old(self).stream.rd,
            send_post(
                old(self).write_state,
                old(self).stream.wr.out(),
                final(self).write_state,
                final(self).stream.wr.out(),
                OpCode::Close,
                close_payload(code, msg@),
                r,
            ),
    {
        let data = close_data(code, msg);
        self.send(OpCode::Close, data.as_slice())
    }

    /// The transport model buffers everything; nothing is held back.
    pub fn flush(&mut self) -> (r: Result<(), WsError>)
        ensures
            *final(self) == *old(self),
            r is Ok,
    {
        Ok(())
    }

    /// Separate the two directions into independently owned halves.
    pub fn split(self) -> (r: (DeflateRecv, DeflateSend))
        ensures
            r.0.stream == self.stream.rd,
            r.0.read_state == self.read_state,
            r.1.stream == self.stream.wr,
            r.1.write_state == self.write_state,
    {
        let DeflateCodec { stream, read_state, write_state } = self;
        let (rd, wr) = stream.split();
        (DeflateRecv::new(rd, read_state), DeflateSend::new(wr, write_state))
    }
}

/// The receiving half after a split.
pub struct DeflateRecv {
    pub stream: ReadStream,
    pub read_state: DeflateReadState,
}

impl DeflateRecv {
    pub open spec fn wf(self) -> bool {
        self.read_state.wf() && self.stream.wf()
    }

    pub fn new(stream: ReadStream, read_state: DeflateReadState) -> (r: Self)
        ensures
            r.stream == stream,
            r.read_state == read_state,
    {
        DeflateRecv { stream, read_state }
    }

    /// Mutable access to the inbound buffer, for feeding bytes.
    pub fn stream_mut(&mut self) -> (r: &mut ReadStream)
        ensures
            *r == old(self).stream,
            *final(self) == (DeflateRecv { stream: *final(r), ..*old(self) }),
    {
        &mut self.stream
    }

    /// Receive one message from the pending input.
    pub fn receive(&mut self) -> (r: Result<(SimplifiedHeader, Vec<u8>), WsError>)
        requires
            old(self).wf(),
        ensures
            final(self).wf(),
            old(self).read_state.same_shape(final(self).read_state),
            recv_post(
                old(self).read_state,
                old(self).stream.remaining(),
                final(self).read_state,
                final(self).stream.remaining(),
                r,
            ),
    {
        self.read_state.receive(&mut self.stream)
    }

    /// As `receive`; kept for callers that want to edit the returned bytes.
    pub fn receive_mut(&mut self) -> (r: Result<(SimplifiedHeader, Vec<u8>), WsError>)
        requires
            old(self).wf(),
        ensures
            final(self).wf(),
            old(self).read_state.same_shape(final(self).read_state),
            recv_post(
                old(self).read_state,
                old(self).stream.remaining(),
                final(self).read_state,
                final(self).stream.remaining(),
                r,
            ),
    {
        self.read_state.receive_mut(&mut self.stream)
    }
}

/// The sending half after a split.
pub struct DeflateSend {
    pub stream: WriteStream,
    pub write_state: DeflateWriteState,
}

impl DeflateSend {
    pub open spec fn wf(self) -> bool {
        self.write_state.wf()
    }

    pub fn new(stream: WriteStream, write_state: DeflateWriteState) -> (r: Self)
        ensures
            r.stream == stream,
            r.write_state == write_state,
    {
        DeflateSend { stream, write_state }
    }

    /// Mutable access to the outbound buffer, for draining bytes.
    pub fn stream_mut(&mut self) -> (r: &mut WriteStream)
        ensures
            *r == old(self).stream,
            *final(self) == (DeflateSend { stream: *final(r), ..*old(self) }),
    {
        &mut self.stream
    }

    /// Emit one frame as given; see the write state's method.
    pub fn send_owned_frame(&mut self, frame: OwnedFrame) -> (r: Result<(), WsError>)
        requires
            old(self).wf(),
        ensures
            final(self).wf(),
            old(self).write_state.same_shape(final(self).write_state),
            send_owned_post(
                old(self).write_state,
                old(self).stream.out(),
                final(self).write_state,
                final(self).stream.out(),
                frame,
                r,
            ),
    {
        self.write_state.send_owned_frame(&mut self.stream, frame)
    }

    /// Send one message, fragmenting and compressing as configured.
    pub fn send(&mut self, code: OpCode, payload: &[u8]) -> (r: Result<(), WsError>)
        requires
            old(self).wf(),
        ensures
            final(self).wf(),
            old(self).write_state.same_shape(final(self).write_state),
            send_post(
                old(self).write_state,
                old(self).stream.out(),
                final(self).write_state,
                final(self).stream.out(),
                code,
                payload@,
                r,
            ),
    {
        self.write_state.send(&mut self.stream, code, payload)
    }

    /// Send a Text message.
    pub fn text(&mut self, text: &str) -> (r: Result<(), WsError>)
        requires
            old(self).wf(),
        ensures
            final(self).wf(),
            old(self).write_state.same_shape(final(self).write_state),
            send_post(
                old(self).write_state,
                old(self).stream.out(),
                final(self).write_state,
                final(self).stream.out(),
                OpCode::Text,
                text.spec_bytes(),
                r,
            ),
    {
        self.write_state.send(&mut self.stream, OpCode::Text, text.as_bytes())
    }

    /// Send a Binary message.
    pub fn binary(&mut self, data: &[u8]) -> (r: Result<(), WsError>)
        requires
            old(self).wf(),
        ensures
            final(self).wf(),
            old(self).write_state.same_shape(final(self).write_state),
            send_post(
                old(self).write_state,
                old(self).stream.out(),
                final(self).write_state,
                final(self).stream.out(),
                OpCode::Binary,
                data@,
                r,
            ),
    {
        self.send(OpCode::Binary, data)
    }

    /// Send a Ping control frame.
    pub fn ping(&mut self, data: &[u8]) -> (r: Result<(), WsError>)
        requires
            old(self).wf(),
        ensures
            final(self).wf(),
            old(self).write_state.same_shape(final(self).write_state),
            send_post(
                old(self).write_state,
                old(self).stream.out(),
                final(self).write_state,
                final(self).stream.out(),
                OpCode::Ping,
                data@,
                r,
            ),
    {
        self.send(OpCode::Ping, data)
    }

    /// Send a Pong control frame.
    pub fn pong(&mut self, data: &[u8]) -> (r: Result<(), WsError>)
        requires
            old(self).wf(),
        ensures
            final(self).wf(),
            old(self).write_state.same_shape(final(self).write_state),
            send_post(
                old(self).write_state,
                old(self).stream.out(),
                final(self).write_state,
                final(self).stream.out(),
                OpCode::Pong,
                data@,
                r,
            ),
    {
        self.send(OpCode::Pong, data)
    }

    /// Send a Close frame: the code in big-endian, then the reason bytes.
    pub fn close(&mut self, code: u16, msg: &[u8]) -> (r: Result<(), WsError>)
        requires
            old(self).wf(),
        ensures
            final(self).wf(),
            old(self).write_state.same_shape(final(self).write_state),
            send_post(
                old(self).write_state,
                old(self).stream.out(),
                final(self).write_state,
                final(self).stream.out(),
                OpCode::Close,
                close_payload(code, msg@),
                r,
            ),
    {
        let data = close_data(code, msg);
        self.send(OpCode::Close, data.as_slice())
    }

    /// The transport model buffers everything; nothing is held back.
    pub fn flush(&mut self) -> (r: Result<(), WsError>)
        ensures
            *final(self) == *old(self),
            r is Ok,
    {
        Ok(())
    }
}

} // verus!
