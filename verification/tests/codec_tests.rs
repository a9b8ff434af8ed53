use ws_codec::codec::DeflateCodec;
use ws_codec::config::{negotiate_pmd, FrameConfig, PMDConfig, ValidateUtf8Policy};
use ws_codec::frame::OwnedFrame;
use ws_codec::stream::Stream;
use ws_codec::types::{MaskKey, OpCode, ProtocolError, WsError};

fn client_config() -> FrameConfig {
    FrameConfig {
        mask_send_frame: true,
        auto_fragment_size: 0,
        merge_frame: true,
        validate_utf8: ValidateUtf8Policy::Check,
    }
}

fn server_config() -> FrameConfig {
    FrameConfig {
        mask_send_frame: false,
        auto_fragment_size: 0,
        merge_frame: true,
        validate_utf8: ValidateUtf8Policy::Check,
    }
}

fn client(pmd: Option<PMDConfig>) -> DeflateCodec {
    DeflateCodec::new(Stream::new(), client_config(), pmd, false)
}

fn server(pmd: Option<PMDConfig>) -> DeflateCodec {
    DeflateCodec::new(Stream::new(), server_config(), pmd, true)
}

fn nct_pmd() -> PMDConfig {
    PMDConfig {
        server_no_context_takeover: true,
        client_no_context_takeover: true,
        server_max_window_bits: 15,
        client_max_window_bits: 15,
    }
}

/// Split the wire bytes into frames: (byte0, unmasked payload) per frame.
fn parse_wire(mut wire: &[u8]) -> Vec<(u8, Vec<u8>)> {
    let mut frames = Vec::new();
    while !wire.is_empty() {
        let b0 = wire[0];
        let b1 = wire[1];
        let masked = b1 >= 128;
        let len7 = (b1 % 128) as usize;
        let (plen, mut off) = if len7 < 126 {
            (len7, 2usize)
        } else if len7 == 126 {
            ((wire[2] as usize) * 256 + wire[3] as usize, 4usize)
        } else {
            let mut v = 0usize;
            for i in 0..8 {
                v = v * 256 + wire[2 + i] as usize;
            }
            (v, 10usize)
        };
        let key = if masked {
            let k = [wire[off], wire[off + 1], wire[off + 2], wire[off + 3]];
            off += 4;
            Some(k)
        } else {
            None
        };
        let mut payload: Vec<u8> = wire[off..off + plen].to_vec();
        if let Some(k) = key {
            for (i, b) in payload.iter_mut().enumerate() {
                *b ^= k[i % 4];
            }
        }
        frames.push((b0, payload));
        wire = &wire[off + plen..];
    }
    frames
}

#[test]
fn mask_involution() {
    let key = MaskKey { b0: 1, b1: 2, b2: 3, b3: 4 };
    let data = b"some payload bytes".to_vec();
    let mut buf = data.clone();
    ws_codec::frame::apply_mask(&mut buf, key);
    assert_ne!(buf, data);
    ws_codec::frame::apply_mask(&mut buf, key);
    assert_eq!(buf, data);
}

#[test]
fn owned_frame_mask_roundtrip() {
    let key = MaskKey { b0: 9, b1: 8, b2: 7, b3: 6 };
    let mut f = OwnedFrame::new(OpCode::Binary, Some(key), b"abcdef");
    let prev = f.unmask();
    assert_eq!(prev, Some(key));
    assert_eq!(f.payload, b"abcdef".to_vec());
    f.mask(key);
    let prev2 = f.unmask();
    assert_eq!(prev2, Some(key));
    assert_eq!(f.payload, b"abcdef".to_vec());
}

#[test]
fn plain_echo() {
    let mut c = client(None);
    c.text("Hello").unwrap();
    let wire = c.stream.wr.take_all();
    assert_eq!(wire[0], 0x81);
    assert_eq!(wire[1], 0x85);
    assert_eq!(wire.len(), 2 + 4 + 5);
    let frames = parse_wire(&wire);
    assert_eq!(frames.len(), 1);
    assert_eq!(frames[0].1, b"Hello".to_vec());

    let mut s = server(None);
    s.stream.rd.feed(&wire);
    let (h, data) = s.receive().unwrap();
    assert_eq!(h.code, OpCode::Text);
    assert!(h.fin);
    assert_eq!(data, b"Hello".to_vec());
}

#[test]
fn compressed_echo() {
    let pmd = Some(nct_pmd());
    let mut c = client(pmd);
    c.text("Hello").unwrap();
    let wire = c.stream.wr.take_all();
    // FIN + RSV1 + Text opcode, masked payload
    assert_eq!(wire[0], 0xC1);
    assert!(wire[1] >= 128);

    let mut s = server(pmd);
    s.stream.rd.feed(&wire);
    let (h, data) = s.receive().unwrap();
    assert_eq!(h.code, OpCode::Text);
    assert!(h.fin);
    assert!(!h.rsv1);
    assert_eq!(data, b"Hello".to_vec());
}

#[test]
fn compressed_echo_repeats_identically_under_nct() {
    let pmd = Some(nct_pmd());
    let mut c = client(pmd);
    c.text("Hello").unwrap();
    let wire1 = c.stream.wr.take_all();
    c.text("Hello").unwrap();
    let wire2 = c.stream.wr.take_all();
    let f1 = parse_wire(&wire1);
    let f2 = parse_wire(&wire2);
    // the compressor was reset after the first message, so the compressed
    // bytes of the second are those of a fresh compressor
    assert_eq!(f1[0].1, f2[0].1);

    let mut s = server(pmd);
    s.stream.rd.feed(&wire1);
    assert_eq!(s.receive().unwrap().1, b"Hello".to_vec());
    s.stream.rd.feed(&wire2);
    assert_eq!(s.receive().unwrap().1, b"Hello".to_vec());
}

#[test]
fn compressed_echo_with_context_takeover() {
    let pmd = Some(PMDConfig::default());
    let mut c = client(pmd);
    let mut s = server(pmd);
    for msg in ["Hello", "Hello again", "and a third message"] {
        c.text(msg).unwrap();
        let wire = c.stream.wr.take_all();
        s.stream.rd.feed(&wire);
        let (h, data) = s.receive().unwrap();
        assert_eq!(h.code, OpCode::Text);
        assert_eq!(data, msg.as_bytes().to_vec());
    }
}

#[test]
fn fragmentation() {
    let mut cfg = client_config();
    cfg.auto_fragment_size = 3;
    let mut c = DeflateCodec::new(Stream::new(), cfg, None, false);
    c.binary(b"ABCDEF").unwrap();
    let wire = c.stream.wr.take_all();
    let frames = parse_wire(&wire);
    assert_eq!(frames.len(), 2);
    assert_eq!(frames[0].0 & 0x80, 0); // fin clear
    assert_eq!(frames[0].0 & 0x0F, 0x02); // Binary
    assert_eq!(frames[0].1, b"ABC".to_vec());
    assert_eq!(frames[1].0, 0x80); // fin + Continue
    assert_eq!(frames[1].1, b"DEF".to_vec());

    let mut s = server(None);
    s.stream.rd.feed(&wire);
    let (h, data) = s.receive().unwrap();
    assert_eq!(h.code, OpCode::Binary);
    assert!(h.fin);
    assert_eq!(data, b"ABCDEF".to_vec());
}

#[test]
fn fragment_count_is_ceiling() {
    let mut cfg = server_config();
    cfg.auto_fragment_size = 3;
    let mut c = DeflateCodec::new(Stream::new(), cfg, None, true);
    c.binary(b"ABCDEFG").unwrap(); // 7 bytes -> 3 frames
    let frames = parse_wire(&c.stream.wr.take_all());
    assert_eq!(frames.len(), 3);
    assert!(frames[0].0 & 0x80 == 0);
    assert!(frames[1].0 & 0x80 == 0);
    assert!(frames[2].0 & 0x80 != 0);
}

#[test]
fn empty_payload_single_plain_frame() {
    let mut s = server(Some(nct_pmd()));
    s.text("").unwrap();
    let wire = s.stream.wr.take_all();
    assert_eq!(wire, vec![0x81, 0x00]);
}

#[test]
fn header_length_encodings() {
    for (n, expect_prefix) in [
        (125usize, vec![0x82u8, 125]),
        (126, vec![0x82, 126, 0x00, 0x7E]),
        (65535, vec![0x82, 126, 0xFF, 0xFF]),
        (65536, vec![0x82, 127, 0, 0, 0, 0, 0, 1, 0, 0]),
    ] {
        let mut s = server(None);
        let payload = vec![0xABu8; n];
        s.binary(&payload).unwrap();
        let wire = s.stream.wr.take_all();
        assert_eq!(&wire[..expect_prefix.len()], &expect_prefix[..], "len {}", n);
        assert_eq!(wire.len(), expect_prefix.len() + n);
    }
}

#[test]
fn continue_before_initial_is_protocol_error() {
    let mut s = server(None);
    s.stream.rd.feed(&[0x80, 0x00]);
    match s.receive() {
        Err(WsError::ProtocolError { close_code, error }) => {
            assert_eq!(close_code, 1002);
            assert_eq!(error, ProtocolError::MissInitialFragmentedFrame);
        },
        other => panic!("expected protocol error, got {:?}", other),
    }
}

#[test]
fn data_frame_while_fragmented_is_protocol_error() {
    let mut s = server(None);
    // Text fin=0 "AB", then Text fin=1 "C"
    s.stream.rd.feed(&[0x01, 0x02, 0x41, 0x42, 0x81, 0x01, 0x43]);
    match s.receive() {
        Err(WsError::ProtocolError { close_code, error }) => {
            assert_eq!(close_code, 1002);
            assert_eq!(error, ProtocolError::NotContinueFrameAfterFragmented);
        },
        other => panic!("expected protocol error, got {:?}", other),
    }
}

#[test]
fn compressed_ping_is_protocol_error() {
    let mut s = server(Some(nct_pmd()));
    s.stream.rd.feed(&[0xC9, 0x00]);
    match s.receive() {
        Err(WsError::ProtocolError { close_code, error }) => {
            assert_eq!(close_code, 1002);
            assert_eq!(error, ProtocolError::CompressedControlFrame);
        },
        other => panic!("expected protocol error, got {:?}", other),
    }
}

#[test]
fn rsv1_without_negotiated_pmd_is_decompress_error() {
    let mut s = server(None);
    s.stream.rd.feed(&[0xC1, 0x01, 0x41]);
    match s.receive() {
        Err(WsError::DeCompressFailed(m)) => {
            assert_eq!(m, "extension not enabled but got compressed frame");
        },
        other => panic!("expected decompress failure, got {:?}", other),
    }
}

#[test]
fn stream_ending_deflate_block_terminates() {
    // a compressed frame whose payload is a final empty DEFLATE block: the
    // inflater reaches its end state and the call must still return
    let mut s = server(Some(nct_pmd()));
    s.stream.rd.feed(&[0xC1, 0x02, 0x03, 0x00]);
    match s.receive() {
        Ok((h, data)) => {
            assert_eq!(h.code, OpCode::Text);
            assert!(data.is_empty());
        },
        Err(e) => panic!("unexpected error {:?}", e),
    }
}

#[test]
fn utf8_fast_fail_rejects_split_codepoint() {
    let mut cfg = server_config();
    cfg.validate_utf8 = ValidateUtf8Policy::FastFail;
    let mut s = DeflateCodec::new(Stream::new(), cfg, None, true);
    // Text fin=0 with the first two bytes of a four-byte codepoint
    s.stream.rd.feed(&[0x01, 0x02, 0xF0, 0x9F]);
    match s.receive() {
        Err(WsError::ProtocolError { close_code, error }) => {
            assert_eq!(close_code, 1007);
            assert_eq!(error, ProtocolError::InvalidUtf8);
        },
        other => panic!("expected utf8 error, got {:?}", other),
    }
}

#[test]
fn utf8_check_accepts_split_codepoint() {
    let mut s = server(None); // validate_utf8: Check
    s.stream.rd.feed(&[0x01, 0x02, 0xF0, 0x9F, 0x80, 0x02, 0x92, 0x96]);
    let (h, data) = s.receive().unwrap();
    assert_eq!(h.code, OpCode::Text);
    assert_eq!(data, "\u{1F496}".as_bytes().to_vec());
}

#[test]
fn utf8_check_rejects_invalid_final_message() {
    let mut s = server(None); // validate_utf8: Check
    s.stream.rd.feed(&[0x81, 0x02, 0xF0, 0x9F]);
    match s.receive() {
        Err(WsError::ProtocolError { close_code, error }) => {
            assert_eq!(close_code, 1007);
            assert_eq!(error, ProtocolError::InvalidUtf8);
        },
        other => panic!("expected utf8 error, got {:?}", other),
    }
}

#[test]
fn close_codec() {
    let mut s = server(None);
    s.close(1000, b"bye").unwrap();
    let wire = s.stream.wr.take_all();
    assert_eq!(wire, vec![0x88, 0x05, 0x03, 0xE8, 0x62, 0x79, 0x65]);
}

#[test]
fn oversize_control_payload_is_refused() {
    let mut s = server(None);
    let big = vec![0u8; 126];
    match s.ping(&big) {
        Err(WsError::ProtocolError { close_code, error }) => {
            assert_eq!(close_code, 1002);
            assert_eq!(error, ProtocolError::ControlPayloadTooLarge);
        },
        other => panic!("expected refusal, got {:?}", other),
    }
    assert!(s.stream.wr.take_all().is_empty());
    // 125 bytes are accepted
    let ok = vec![0u8; 125];
    s.ping(&ok).unwrap();
    let wire = s.stream.wr.take_all();
    assert_eq!(wire[0], 0x89);
    assert_eq!(wire[1], 125);
}

#[test]
fn ping_pong_surface_as_control_frames() {
    let mut c = client(None);
    c.ping(b"hi").unwrap();
    c.pong(b"ho").unwrap();
    let wire = c.stream.wr.take_all();
    let mut s = server(None);
    s.stream.rd.feed(&wire);
    let (h1, d1) = s.receive().unwrap();
    assert_eq!(h1.code, OpCode::Ping);
    assert_eq!(d1, b"hi".to_vec());
    let (h2, d2) = s.receive().unwrap();
    assert_eq!(h2.code, OpCode::Pong);
    assert_eq!(d2, b"ho".to_vec());
}

#[test]
fn control_frame_between_fragments_is_surfaced() {
    let mut s = server(None);
    // Text fin=0 "AB", Ping "x", Continue fin=1 "C"
    s.stream.rd.feed(&[0x01, 0x02, 0x41, 0x42, 0x89, 0x01, 0x78, 0x80, 0x01, 0x43]);
    let (h1, d1) = s.receive().unwrap();
    assert_eq!(h1.code, OpCode::Ping);
    assert_eq!(d1, b"x".to_vec());
    let (h2, d2) = s.receive().unwrap();
    assert_eq!(h2.code, OpCode::Text);
    assert!(h2.fin);
    assert_eq!(d2, b"ABC".to_vec());
}

#[test]
fn merge_frame_off_surfaces_raw_frames() {
    let mut cfg = server_config();
    cfg.merge_frame = false;
    let mut s = DeflateCodec::new(Stream::new(), cfg, None, true);
    s.stream.rd.feed(&[0x01, 0x02, 0x41, 0x42, 0x80, 0x01, 0x43]);
    let (h1, d1) = s.receive().unwrap();
    assert_eq!(h1.code, OpCode::Text);
    assert!(!h1.fin);
    assert_eq!(d1, b"AB".to_vec());
    let (h2, d2) = s.receive().unwrap();
    assert_eq!(h2.code, OpCode::Continue);
    assert!(h2.fin);
    assert_eq!(d2, b"C".to_vec());
}

#[test]
fn send_owned_frame_compresses_and_sets_rsv1() {
    let pmd = Some(nct_pmd());
    let mut c = client(pmd);
    let frame = OwnedFrame::new(OpCode::Text, None, b"Hello");
    c.send_owned_frame(frame).unwrap();
    let wire = c.stream.wr.take_all();
    assert_eq!(wire[0], 0xC1);

    let mut s = server(pmd);
    s.stream.rd.feed(&wire);
    let (h, data) = s.receive().unwrap();
    assert_eq!(h.code, OpCode::Text);
    assert_eq!(data, b"Hello".to_vec());
}

#[test]
fn compressed_fragmented_roundtrip() {
    let pmd = Some(nct_pmd());
    let mut cfg = client_config();
    cfg.auto_fragment_size = 4;
    let mut c = DeflateCodec::new(Stream::new(), cfg, pmd, false);
    c.binary(b"a longer payload that spans several fragments").unwrap();
    let wire = c.stream.wr.take_all();
    let frames = parse_wire(&wire);
    assert!(frames.len() > 1);
    for (i, (b0, _)) in frames.iter().enumerate() {
        assert_eq!(*b0 & 0x40 != 0, true, "rsv1 on fragment {}", i);
        assert_eq!(*b0 & 0x80 != 0, i == frames.len() - 1, "fin on fragment {}", i);
    }

    let mut s = server(pmd);
    s.stream.rd.feed(&wire);
    let (h, data) = s.receive().unwrap();
    assert_eq!(h.code, OpCode::Binary);
    assert_eq!(data, b"a longer payload that spans several fragments".to_vec());
}

#[test]
fn split_halves_work_independently() {
    let mut c = client(None);
    c.text("before split").unwrap();
    let wire = c.stream.wr.take_all();
    let s = server(None);
    let (mut recv_half, mut send_half) = s.split();
    recv_half.stream_mut().feed(&wire);
    let (h, data) = recv_half.receive().unwrap();
    assert_eq!(h.code, OpCode::Text);
    assert_eq!(data, b"before split".to_vec());
    send_half.text("reply").unwrap();
    let out = send_half.stream_mut().take_all();
    assert_eq!(out[0], 0x81);
    assert_eq!(&out[2..], b"reply");
}

#[test]
fn unknown_opcode_is_rejected() {
    let mut s = server(None);
    s.stream.rd.feed(&[0x83, 0x00]); // opcode 3 is reserved
    match s.receive() {
        Err(WsError::ProtocolError { close_code, error }) => {
            assert_eq!(close_code, 1003);
            assert_eq!(error, ProtocolError::UnsupportedOpcode);
        },
        other => panic!("expected unsupported opcode, got {:?}", other),
    }
}

#[test]
fn reserved_bits_are_rejected() {
    let mut s = server(None);
    s.stream.rd.feed(&[0xA1, 0x00]); // RSV2 set
    match s.receive() {
        Err(WsError::ProtocolError { close_code, error }) => {
            assert_eq!(close_code, 1002);
            assert_eq!(error, ProtocolError::ReservedBitSet);
        },
        other => panic!("expected reserved-bit error, got {:?}", other),
    }
}

#[test]
fn fragmented_control_frame_is_rejected() {
    let mut s = server(None);
    s.stream.rd.feed(&[0x09, 0x00]); // Ping with fin=0
    match s.receive() {
        Err(WsError::ProtocolError { close_code, error }) => {
            assert_eq!(close_code, 1002);
            assert_eq!(error, ProtocolError::FragmentedControlFrame);
        },
        other => panic!("expected control-frame error, got {:?}", other),
    }
}

#[test]
fn incomplete_frame_is_io_error() {
    let mut s = server(None);
    s.stream.rd.feed(&[0x81, 0x05, 0x41]);
    match s.receive() {
        Err(WsError::IOError) => {},
        other => panic!("expected io error, got {:?}", other),
    }
}

#[test]
fn negotiate_takes_last_offer_and_min_bits() {
    let offers = vec![
        PMDConfig::default(),
        PMDConfig {
            server_no_context_takeover: true,
            client_no_context_takeover: false,
            server_max_window_bits: 12,
            client_max_window_bits: 10,
        },
    ];
    let got = negotiate_pmd(&offers).unwrap();
    assert!(got.server_no_context_takeover);
    assert!(!got.client_no_context_takeover);
    assert_eq!(got.server_max_window_bits, 10);
    assert_eq!(got.client_max_window_bits, 10);
    assert!(negotiate_pmd(&Vec::new()).is_none());
}

#[test]
fn oversize_control_frame_on_the_wire_is_rejected() {
    let mut s = server(None);
    let mut wire = vec![0x89u8, 126, 0x00, 126];
    wire.extend(std::iter::repeat(0u8).take(126));
    s.stream.rd.feed(&wire);
    match s.receive() {
        Err(WsError::ProtocolError { close_code, error }) => {
            assert_eq!(close_code, 1002);
            assert_eq!(error, ProtocolError::ControlPayloadTooLarge);
        },
        other => panic!("expected oversize-control error, got {:?}", other),
    }
}

#[test]
fn flush_is_accepted() {
    let mut c = client(None);
    c.flush().unwrap();
}
