//! Frame-level and permessage-deflate configuration.

use vstd::prelude::*;

verus! {

/// When the read side validates UTF-8 of Text messages.
#[derive(Clone, Copy, PartialEq, Eq, Structural, Debug)]
pub enum ValidateUtf8Policy {
    /// No validation.
    Off,
    /// Validate only the final assembled Text message.
    Check,
    /// Validate every Text fragment as it arrives.
    FastFail,
}

impl ValidateUtf8Policy {
    pub open spec fn spec_is_fast_fail(self) -> bool {
        self is FastFail
    }

    #[verifier::when_used_as_spec(spec_is_fast_fail)]
    pub fn is_fast_fail(self) -> (r: bool)
        ensures
            r == self.spec_is_fast_fail(),
    {
        matches!(self, ValidateUtf8Policy::FastFail)
    }

    pub open spec fn spec_should_check(self) -> bool {
        self is Check || self is FastFail
    }

    #[verifier::when_used_as_spec(spec_should_check)]
    pub fn should_check(self) -> (r: bool)
        ensures
            r == self.spec_should_check(),
    {
        matches!(self, ValidateUtf8Policy::Check | ValidateUtf8Policy::FastFail)
    }
}

/// Options recognized by both pipelines.
#[derive(Clone, Copy, PartialEq, Eq, Structural, Debug)]
pub struct FrameConfig {
    /// Whether outbound frames are masked.  Clients set true; servers false.
    pub mask_send_frame: bool,
    /// Maximum application bytes per outbound fragment, before compression.
    /// Zero disables automatic fragmentation.
    pub auto_fragment_size: usize,
    /// If true the read side reassembles Continue chains into one message;
    /// if false each frame surfaces raw.
    pub merge_frame: bool,
    /// UTF-8 validation policy for Text messages.
    pub validate_utf8: ValidateUtf8Policy,
}

impl Default for FrameConfig {
    /// Client-style defaults: masked sends, no automatic fragmentation,
    /// reassembled messages, conservative UTF-8 validation.
    fn default() -> (r: Self)
        ensures
            r.mask_send_frame == true,
            r.auto_fragment_size == 0,
            r.merge_frame == true,
            r.validate_utf8 is Check,
    {
        FrameConfig {
            mask_send_frame: true,
            auto_fragment_size: 0,
            merge_frame: true,
            validate_utf8: ValidateUtf8Policy::Check,
        }
    }
}

/// Negotiated permessage-deflate parameters.
#[derive(Clone, Copy, PartialEq, Eq, Structural, Debug)]
pub struct PMDConfig {
    /// Reset the server-to-client dictionary after every message.
    pub server_no_context_takeover: bool,
    /// Reset the client-to-server dictionary after every message.
    pub client_no_context_takeover: bool,
    /// Server sliding-window size, as a base-2 logarithm (8 to 15).
    pub server_max_window_bits: u8,
    /// Client sliding-window size, as a base-2 logarithm (8 to 15).
    pub client_max_window_bits: u8,
}

impl Default for PMDConfig {
    fn default() -> (r: Self)
        ensures
            r.server_no_context_takeover == false,
            r.client_no_context_takeover == false,
            r.server_max_window_bits == 15,
            r.client_max_window_bits == 15,
    {
        PMDConfig {
            server_no_context_takeover: false,
            client_no_context_takeover: false,
            server_max_window_bits: 15,
            client_max_window_bits: 15,
        }
    }
}

impl PMDConfig {
    /// The no-context-takeover bit that applies to the local write or read role.
    pub open spec fn local_no_context_takeover(self, is_server: bool) -> bool {
        if is_server {
            self.server_no_context_takeover
        } else {
            self.client_no_context_takeover
        }
    }
}

/// Fold the offers of a `Sec-WebSocket-Extensions` header to the final
/// parameters: the last offer wins, and both window-bits values are forced to
/// the minimum of the two directions.  No offer means plain WebSocket.
pub fn negotiate_pmd(offers: &Vec<PMDConfig>) -> (r: Option<PMDConfig>)
    ensures
        offers@.len() == 0 <==> r is None,
        offers@.len() > 0 ==> {
            let last = offers@[offers@.len() - 1];
            let min = if last.client_max_window_bits <= last.server_max_window_bits {
                last.client_max_window_bits
            } else {
                last.server_max_window_bits
            };
            r == Some(
                PMDConfig {
                    server_max_window_bits: min,
                    client_max_window_bits: min,
                    ..last
                },
            )
        },
{
    if offers.len() == 0 {
        None
    } else {
        let last = offers[offers.len() - 1];
        let min = if last.client_max_window_bits <= last.server_max_window_bits {
            last.client_max_window_bits
        } else {
            last.server_max_window_bits
        };
        Some(
            PMDConfig {
                server_max_window_bits: min,
                client_max_window_bits: min,
                ..last
            },
        )
    }
}

} // verus!
