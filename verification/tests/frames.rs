//! Frame codec: all guest-to-host bytes are hostile.

use vz_backend::frame::{
    read_frame, write_frame, Channel, Frame, FrameDecoder, FrameError, MAX_FRAME_PAYLOAD,
};

fn encode(channel: Channel, payload: &[u8]) -> Vec<u8> {
    let mut out = Vec::new();
    write_frame(&mut out, channel, payload).expect("write should succeed");
    out
}

fn read_first(bytes: &[u8]) -> Result<Frame, FrameError> {
    let mut at = 0;
    read_frame(bytes, &mut at)
}

#[test]
fn roundtrip_every_channel() {
    for channel in [Channel::Control, Channel::Stdin, Channel::Stdout, Channel::Stderr] {
        let bytes = encode(channel, b"hello");
        let frame = read_first(&bytes).expect("read should succeed");
        assert_eq!(frame, Frame { channel, payload: b"hello".to_vec() });
    }
}

#[test]
fn wire_format_is_length_channel_payload() {
    assert_eq!(encode(Channel::Stderr, b"abc"), [3, 0, 0, 0, 3, b'a', b'b', b'c']);
    assert_eq!(encode(Channel::Control, &[7; 0x0102])[..5], [2, 1, 0, 0, 0]);
}

#[test]
fn sequential_frames_roundtrip() {
    let mut bytes = encode(Channel::Stdout, b"one");
    bytes.extend(encode(Channel::Stderr, b"two"));
    bytes.extend(encode(Channel::Control, b"{}"));

    let mut at = 0;
    assert_eq!(read_frame(&bytes, &mut at).unwrap().payload, b"one");
    assert_eq!(read_frame(&bytes, &mut at).unwrap().payload, b"two");
    assert_eq!(read_frame(&bytes, &mut at).unwrap().channel, Channel::Control);
    assert!(matches!(read_frame(&bytes, &mut at), Err(FrameError::Closed)));
}

#[test]
fn empty_payload_roundtrips() {
    // An empty Stdin frame is the stdin-EOF signal, so this must work.
    let bytes = encode(Channel::Stdin, b"");
    let frame = read_first(&bytes).expect("read should succeed");
    assert!(frame.payload.is_empty());
}

#[test]
fn payload_at_exactly_the_cap_roundtrips() {
    let payload = vec![0xAB; MAX_FRAME_PAYLOAD];
    let bytes = encode(Channel::Stdout, &payload);
    let frame = read_first(&bytes).expect("read should succeed");
    assert_eq!(frame.payload.len(), MAX_FRAME_PAYLOAD);
}

#[test]
fn oversized_write_is_rejected() {
    let payload = vec![0u8; MAX_FRAME_PAYLOAD + 1];
    let mut out = Vec::new();
    assert!(write_frame(&mut out, Channel::Stdout, &payload).is_err());
    assert!(out.is_empty(), "nothing must be written for a rejected frame");
}

#[test]
fn oversized_declared_length_is_rejected_without_reading_payload() {
    let mut bytes = Vec::new();
    bytes.extend_from_slice(&u32::MAX.to_le_bytes());
    bytes.push(2); // stdout
    let result = read_first(&bytes);
    assert!(
        matches!(result, Err(FrameError::Oversized { declared }) if declared == u32::MAX),
        "got: {result:?}"
    );
}

#[test]
fn unknown_channel_byte_is_rejected() {
    let mut bytes = Vec::new();
    bytes.extend_from_slice(&1u32.to_le_bytes());
    bytes.push(9); // no such channel
    bytes.push(b'x');
    assert!(matches!(read_first(&bytes), Err(FrameError::UnknownChannel(9))));
}

#[test]
fn clean_eof_at_frame_boundary_is_closed() {
    assert!(matches!(read_first(&[]), Err(FrameError::Closed)));
}

#[test]
fn truncated_header_is_unexpected_eof() {
    let bytes = [1u8, 0]; // half a length prefix
    assert!(matches!(read_first(&bytes), Err(FrameError::UnexpectedEof)));
}

#[test]
fn truncated_payload_is_unexpected_eof() {
    let mut bytes = Vec::new();
    bytes.extend_from_slice(&5u32.to_le_bytes());
    bytes.push(2); // stdout
    bytes.extend_from_slice(b"ab"); // 2 of 5 declared bytes
    assert!(matches!(read_first(&bytes), Err(FrameError::UnexpectedEof)));
}

#[test]
fn split_reads_reassemble_correctly() {
    let mut bytes = encode(Channel::Stdout, b"trickled payload");
    bytes.extend(encode(Channel::Control, b"{\"x\":1}"));
    let mut decoder = FrameDecoder::new();
    let mut frames = Vec::new();
    for byte in &bytes {
        decoder.feed(&[*byte]);
        while let Some(frame) = decoder.next_frame().expect("no frame is bad") {
            frames.push(frame);
        }
    }
    assert_eq!(frames.len(), 2);
    assert_eq!(frames[0].payload, b"trickled payload");
    assert_eq!(frames[1].channel, Channel::Control);
    assert!(matches!(decoder.end_error(), FrameError::Closed));
}

#[test]
fn decoder_refuses_a_bad_frame_as_soon_as_it_shows() {
    let mut decoder = FrameDecoder::new();
    decoder.feed(&[0, 0, 0]);
    assert_eq!(decoder.next_frame(), Ok(None));
    decoder.feed(&[2]); // 0x02000000: over the cap
    assert_eq!(decoder.next_frame(), Err(FrameError::Oversized { declared: 0x0200_0000 }));

    let mut decoder = FrameDecoder::new();
    decoder.feed(&[1, 0, 0, 0, 4]);
    assert_eq!(decoder.next_frame(), Err(FrameError::UnknownChannel(4)));

    let mut decoder = FrameDecoder::new();
    decoder.feed(&[1, 0]);
    assert_eq!(decoder.end_error(), FrameError::UnexpectedEof);
}

#[test]
fn arbitrary_byte_streams_error_but_never_panic() {
    for seed in [1u64, 42, 0xDEAD_BEEF, u64::MAX] {
        let mut state = seed;
        let mut bytes = Vec::with_capacity(256);
        for _ in 0..256 {
            state ^= state << 13;
            state ^= state >> 7;
            state ^= state << 17;
            bytes.push(state as u8);
        }
        let mut at = 0;
        for _ in 0..16 {
            match read_frame(&bytes, &mut at) {
                Ok(_) => continue,
                Err(_) => break,
            }
        }
    }
}

#[test]
fn frame_errors_render_their_messages() {
    assert_eq!(
        FrameError::Oversized { declared: 4294967295 }.message(),
        "frame declares 4294967295 payload bytes, above the 16777216-byte cap"
    );
    assert_eq!(FrameError::UnknownChannel(9).message(), "unknown frame channel byte 9");
    assert_eq!(FrameError::UnexpectedEof.message(), "stream ended mid-frame");
    assert_eq!(FrameError::Closed.message(), "stream closed");
    assert_eq!(FrameError::Io("broken pipe".to_string()).message(), "frame I/O error: broken pipe");
}

#[test]
fn channel_bytes_are_fixed() {
    for (channel, byte) in [
        (Channel::Control, 0u8),
        (Channel::Stdin, 1),
        (Channel::Stdout, 2),
        (Channel::Stderr, 3),
    ] {
        assert_eq!(channel.to_byte(), byte);
        assert_eq!(Channel::from_byte(byte), Some(channel));
    }
    assert_eq!(Channel::from_byte(4), None);
}
