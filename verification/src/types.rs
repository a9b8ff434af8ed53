//! Core wire-level types: opcodes, decoded headers, mask keys and errors.

use vstd::prelude::*;

verus! {

/// The closed set of RFC 6455 opcodes.  Any other wire value is a protocol
/// error, rejected by the frame parser.
#[derive(Clone, Copy, PartialEq, Eq, Structural, Debug)]
pub enum OpCode {
    Continue,
    Text,
    Binary,
    Close,
    Ping,
    Pong,
}

impl OpCode {
    /// A data opcode may open or continue a message; the rest are control frames.
    pub open spec fn spec_is_data(self) -> bool {
        self is Continue || self is Text || self is Binary
    }

    #[verifier::when_used_as_spec(spec_is_data)]
    pub fn is_data(self) -> (r: bool)
        ensures
            r == self.spec_is_data(),
    {
        matches!(self, OpCode::Continue | OpCode::Text | OpCode::Binary)
    }

    /// The four-bit wire value of the opcode.
    pub open spec fn spec_value(self) -> u8 {
        match self {
            OpCode::Continue => 0,
            OpCode::Text => 1,
            OpCode::Binary => 2,
            OpCode::Close => 8,
            OpCode::Ping => 9,
            OpCode::Pong => 10,
        }
    }

    #[verifier::when_used_as_spec(spec_value)]
    pub fn value(self) -> (r: u8)
        ensures
            r == self.spec_value(),
    {
        match self {
            OpCode::Continue => 0,
            OpCode::Text => 1,
            OpCode::Binary => 2,
            OpCode::Close => 8,
            OpCode::Ping => 9,
            OpCode::Pong => 10,
        }
    }

    /// Decode a four-bit wire value; unknown values have no opcode.
    pub open spec fn spec_from_value(v: u8) -> Option<OpCode> {
        if v == 0 {
            Some(OpCode::Continue)
        } else if v == 1 {
            Some(OpCode::Text)
        } else if v == 2 {
            Some(OpCode::Binary)
        } else if v == 8 {
            Some(OpCode::Close)
        } else if v == 9 {
            Some(OpCode::Ping)
        } else if v == 10 {
            Some(OpCode::Pong)
        } else {
            None
        }
    }

    pub fn from_value(v: u8) -> (r: Option<OpCode>)
        ensures
            r == Self::spec_from_value(v),
    {
        if v == 0 {
            Some(OpCode::Continue)
        } else if v == 1 {
            Some(OpCode::Text)
        } else if v == 2 {
            Some(OpCode::Binary)
        } else if v == 8 {
            Some(OpCode::Close)
        } else if v == 9 {
            Some(OpCode::Ping)
        } else if v == 10 {
            Some(OpCode::Pong)
        } else {
            None
        }
    }
}

/// A four-byte masking key, applied byte-wise: `out[i] = in[i] XOR key[i mod 4]`.
#[derive(Clone, Copy, PartialEq, Eq, Structural, Debug)]
pub struct MaskKey {
    pub b0: u8,
    pub b1: u8,
    pub b2: u8,
    pub b3: u8,
}

impl MaskKey {
    /// The key byte used at payload index `i`.
    pub open spec fn byte_at(self, i: int) -> u8 {
        let r = i % 4;
        if r == 0 {
            self.b0
        } else if r == 1 {
            self.b1
        } else if r == 2 {
            self.b2
        } else {
            self.b3
        }
    }

    /// The four key bytes in wire order.
    pub open spec fn bytes(self) -> Seq<u8> {
        seq![self.b0, self.b1, self.b2, self.b3]
    }
}

/// A decoded frame header, as surfaced to callers of the read pipeline.
/// RSV2 and RSV3 are always false on accepted frames; RSV1 marks a
/// compressed message under permessage-deflate.
#[derive(Clone, Copy, PartialEq, Eq, Structural, Debug)]
pub struct SimplifiedHeader {
    pub fin: bool,
    pub rsv1: bool,
    pub rsv2: bool,
    pub rsv3: bool,
    pub code: OpCode,
}

/// The specific protocol violation behind a close code.
#[derive(Clone, Copy, PartialEq, Eq, Structural, Debug)]
pub enum ProtocolError {
    /// A control frame arrived with RSV1 set.
    CompressedControlFrame,
    /// A Continue frame arrived while no message was open.
    MissInitialFragmentedFrame,
    /// A Text or Binary frame arrived while a fragmented message was open.
    NotContinueFrameAfterFragmented,
    /// A Text payload failed UTF-8 validation.
    InvalidUtf8,
    /// An unknown opcode value appeared on the wire.
    UnsupportedOpcode,
    /// A control frame carried more than 125 payload bytes.
    ControlPayloadTooLarge,
    /// A control frame arrived with the FIN bit clear.
    FragmentedControlFrame,
    /// RSV2 or RSV3 was set.
    ReservedBitSet,
}

/// Errors surfaced by the codec.  Nothing is retried internally; every error
/// propagates to the caller and ends the connection's usefulness.
#[derive(Clone, PartialEq, Eq, Debug)]
pub enum WsError {
    /// The transport could not supply or accept bytes (here: the input buffer
    /// ended before a complete frame).
    IOError,
    /// A violation of RFC 6455 or RFC 7692, with the close code to send.
    ProtocolError { close_code: u16, error: ProtocolError },
    /// The compressor reported a failure; carries its message.
    CompressFailed(String),
    /// The inflater reported a failure; carries its message.
    DeCompressFailed(String),
    /// The opening handshake did not check out; surfaced only from the
    /// construction helpers, never from steady-state traffic.
    HandShakeFailed(String),
}

} // verus!
