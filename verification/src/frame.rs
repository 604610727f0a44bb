//! Length-prefixed frame codec: a little-endian 32-bit payload length, a
//! channel byte, the payload.
//!
//! The declared length is held to the cap *before* any payload is taken in;
//! unknown channel bytes are rejected; truncation is distinguished from a
//! clean close at a frame boundary. All bytes from the guest are hostile.

use vstd::prelude::*;
use vstd::slice::slice_subrange;
use vstd::string::*;
use crate::bytes::push_all;
use crate::text::{decimal, push_decimal};

verus! {

/// Hard cap on a single frame's payload: 16 MiB.
pub const MAX_FRAME_PAYLOAD: usize = 16_777_216;

#[derive(Clone, Copy, Debug, PartialEq, Eq, Structural)]
pub enum Channel {
    Control,
    Stdin,
    Stdout,
    Stderr,
}

impl Channel {
    /// The channel's byte on the wire.
    pub open spec fn code(self) -> u8 {
        match self {
            Channel::Control => 0,
            Channel::Stdin => 1,
            Channel::Stdout => 2,
            Channel::Stderr => 3,
        }
    }

    pub fn to_byte(self) -> (byte: u8)
        ensures
            byte == self.code(),
    {
        match self {
            Channel::Control => 0,
            Channel::Stdin => 1,
            Channel::Stdout => 2,
            Channel::Stderr => 3,
        }
    }

    pub fn from_byte(byte: u8) -> (channel: Option<Channel>)
        ensures
            channel == channel_of(byte),
    {
        if byte == 0 {
            Some(Channel::Control)
        } else if byte == 1 {
            Some(Channel::Stdin)
        } else if byte == 2 {
            Some(Channel::Stdout)
        } else if byte == 3 {
            Some(Channel::Stderr)
        } else {
            None
        }
    }
}

/// The channel with this byte.
pub open spec fn channel_of(byte: u8) -> Option<Channel> {
    if byte == 0 {
        Some(Channel::Control)
    } else if byte == 1 {
        Some(Channel::Stdin)
    } else if byte == 2 {
        Some(Channel::Stdout)
    } else if byte == 3 {
        Some(Channel::Stderr)
    } else {
        None
    }
}

#[derive(Clone, Debug, PartialEq, Eq)]
pub struct Frame {
    pub channel: Channel,
    pub payload: Vec<u8>,
}

#[derive(Clone, Debug, PartialEq, Eq)]
pub enum FrameError {
    /// The transport failed, with its own message.
    Io(String),
    /// Declared payload length exceeds [`MAX_FRAME_PAYLOAD`].
    Oversized { declared: u32 },
    UnknownChannel(u8),
    /// The stream ended mid-frame.
    UnexpectedEof,
    /// The stream ended cleanly at a frame boundary.
    Closed,
}

/// What a frame error says.
pub enum FrameErrorModel {
    Io(Seq<char>),
    Oversized { declared: u32 },
    UnknownChannel(u8),
    UnexpectedEof,
    Closed,
}

impl View for FrameError {
    type V = FrameErrorModel;

    open spec fn view(&self) -> FrameErrorModel {
        match self {
            FrameError::Io(text) => FrameErrorModel::Io(text@),
            FrameError::Oversized { declared } => FrameErrorModel::Oversized {
                declared: *declared,
            },
            FrameError::UnknownChannel(byte) => FrameErrorModel::UnknownChannel(*byte),
            FrameError::UnexpectedEof => FrameErrorModel::UnexpectedEof,
            FrameError::Closed => FrameErrorModel::Closed,
        }
    }
}

impl FrameErrorModel {
    /// The message shown for this error.
    pub open spec fn text(self) -> Seq<char> {
        match self {
            FrameErrorModel::Io(text) => "frame I/O error: "@ + text,
            FrameErrorModel::Oversized { declared } => "frame declares "@ + decimal(
                declared as nat,
            ) + " payload bytes, above the 16777216-byte cap"@,
            FrameErrorModel::UnknownChannel(byte) => "unknown frame channel byte "@ + decimal(
                byte as nat,
            ),
            FrameErrorModel::UnexpectedEof => "stream ended mid-frame"@,
            FrameErrorModel::Closed => "stream closed"@,
        }
    }
}

impl FrameError {
    /// The message shown for this error.
    pub fn message(&self) -> (message: String)
        ensures
            message@ == self@.text(),
    {
        match self {
            FrameError::Io(text) => {
                let mut m: String = "frame I/O error: ".to_string();
                m.append(text.as_str());
                m
            },
            FrameError::Oversized { declared } => {
                let mut m: String = "frame declares ".to_string();
                push_decimal(&mut m, *declared as u64);
                m.append(" payload bytes, above the 16777216-byte cap");
                m
            },
            FrameError::UnknownChannel(byte) => {
                let mut m: String = "unknown frame channel byte ".to_string();
                push_decimal(&mut m, *byte as u64);
                m
            },
            FrameError::UnexpectedEof => "stream ended mid-frame".to_string(),
            FrameError::Closed => "stream closed".to_string(),
        }
    }
}

/// The four bytes of a length, least significant first.
pub open spec fn length_bytes(len: nat) -> Seq<u8> {
    seq![
        (len % 256) as u8,
        (len / 256 % 256) as u8,
        (len / 65536 % 256) as u8,
        (len / 16777216 % 256) as u8,
    ]
}

/// The length that the first four bytes declare.
pub open spec fn declared_length(bytes: Seq<u8>) -> nat {
    bytes[0] as nat + 256 * bytes[1] as nat + 65536 * bytes[2] as nat + 16777216 * bytes[3] as nat
}

/// A frame on the wire.
pub open spec fn frame_bytes(channel: Channel, payload: Seq<u8>) -> Seq<u8> {
    length_bytes(payload.len()) + seq![channel.code()] + payload
}

/// What stands at the front of a byte stream.
pub enum Front {
    /// Nothing wrong so far, but no whole frame either.
    Partial,
    /// A length over the cap.
    Oversized { declared: u32 },
    UnknownChannel(u8),
    Whole { channel: Channel, payload: Seq<u8> },
}

/// What stands at the front of `stream`. A length over the cap is found on
/// the length alone, an unknown channel on the channel byte alone.
pub open spec fn front_of(stream: Seq<u8>) -> Front {
    if stream.len() < 4 {
        Front::Partial
    } else if declared_length(stream) > MAX_FRAME_PAYLOAD {
        Front::Oversized { declared: declared_length(stream) as u32 }
    } else if stream.len() < 5 {
        Front::Partial
    } else {
        match channel_of(stream[4]) {
            None => Front::UnknownChannel(stream[4]),
            Some(channel) => if stream.len() < 5 + declared_length(stream) {
                Front::Partial
            } else {
                Front::Whole {
                    channel,
                    payload: stream.subrange(5, 5 + declared_length(stream) as int),
                }
            },
        }
    }
}

/// The error of a stream that ends after `stream`, if no frame is whole.
pub open spec fn error_at_end(stream: Seq<u8>) -> FrameErrorModel {
    match front_of(stream) {
        Front::Oversized { declared } => FrameErrorModel::Oversized { declared },
        Front::UnknownChannel(byte) => FrameErrorModel::UnknownChannel(byte),
        _ => if stream.len() == 0 {
            FrameErrorModel::Closed
        } else {
            FrameErrorModel::UnexpectedEof
        },
    }
}

/// How many bytes of `stream` a read of one frame consumes.
pub open spec fn consumed(stream: Seq<u8>) -> int {
    match front_of(stream) {
        Front::Partial => stream.len() as int,
        Front::Oversized { .. } => 4,
        Front::UnknownChannel(_) => 5,
        Front::Whole { payload, .. } => 5 + payload.len() as int,
    }
}

/// Appends one frame. An oversized payload is rejected, and nothing is
/// written for it.
pub fn write_frame(w: &mut Vec<u8>, channel: Channel, payload: &[u8]) -> (result: Result<
    (),
    FrameError,
>)
    ensures
        match result {
            Ok(()) => payload@.len() <= MAX_FRAME_PAYLOAD && final(w)@ == old(w)@ + frame_bytes(
                channel,
                payload@,
            ),
            Err(error) => payload@.len() > MAX_FRAME_PAYLOAD && final(w)@ == old(w)@ && error@
                == (FrameErrorModel::Oversized {
                declared: (if payload@.len() < u32::MAX {
                    payload@.len() as int
                } else {
                    u32::MAX as int
                }) as u32,
            }),
        },
{
    let len: usize = payload.len();
    if len > MAX_FRAME_PAYLOAD {
        let declared: u32 = if len < 0xFFFF_FFFF {
            len as u32
        } else {
            u32::MAX
        };
        return Err(FrameError::Oversized { declared });
    }
    let ghost before = w@;
    w.push((len % 256) as u8);
    w.push((len / 256 % 256) as u8);
    w.push((len / 65536 % 256) as u8);
    w.push((len / 16777216 % 256) as u8);
    w.push(channel.to_byte());
    push_all(w, payload);
    assert(w@ =~= before + frame_bytes(channel, payload@));
    Ok(())
}

/// What an attempt to take a frame off the front of some bytes found.
enum Attempt {
    Partial,
    Bad(FrameError),
    /// A frame, with the number of its bytes.
    Whole(Frame, usize),
}

spec fn attempt_matches(attempt: Attempt, stream: Seq<u8>) -> bool {
    match attempt {
        Attempt::Partial => front_of(stream) is Partial,
        Attempt::Bad(error) => (front_of(stream) is Oversized || front_of(stream)
            is UnknownChannel) && error@ == error_at_end(stream),
        Attempt::Whole(frame, n) => front_of(stream) == (Front::Whole {
            channel: frame.channel,
            payload: frame.payload@,
        }) && n == consumed(stream) && n <= stream.len(),
    }
}

fn attempt_frame(stream: &[u8], at: usize) -> (attempt: Attempt)
    requires
        at <= stream@.len(),
    ensures
        attempt_matches(attempt, stream@.skip(at as int)),
{
    let ghost rest = stream@.skip(at as int);
    let len: usize = stream.len() - at;
    if len < 4 {
        return Attempt::Partial;
    }
    let declared: u32 = stream[at] as u32 + 256 * stream[at + 1] as u32 + 65536
        * stream[at + 2] as u32 + 16777216 * stream[at + 3] as u32;
    assert(declared == declared_length(rest));
    if declared as usize > MAX_FRAME_PAYLOAD {
        return Attempt::Bad(FrameError::Oversized { declared });
    }
    if len < 5 {
        return Attempt::Partial;
    }
    let channel: Channel = match Channel::from_byte(stream[at + 4]) {
        Some(channel) => channel,
        None => {
            return Attempt::Bad(FrameError::UnknownChannel(stream[at + 4]));
        },
    };
    if len - 5 < declared as usize {
        return Attempt::Partial;
    }
    let end: usize = 5 + declared as usize;
    let mut payload: Vec<u8> = Vec::new();
    push_all(&mut payload, slice_subrange(stream, at + 5, at + end));
    assert(payload@ =~= rest.subrange(5, end as int));
    Attempt::Whole(Frame { channel, payload }, end)
}

/// Reads one frame off `stream` from `*at` on, and moves `*at` behind what was
/// read.
pub fn read_frame(stream: &[u8], at: &mut usize) -> (result: Result<Frame, FrameError>)
    requires
        *old(at) <= stream@.len(),
    ensures
        *final(at) <= stream@.len(),
        *final(at) == *old(at) + consumed(stream@.skip(*old(at) as int)),
        match result {
            Ok(frame) => front_of(stream@.skip(*old(at) as int)) == (Front::Whole {
                channel: frame.channel,
                payload: frame.payload@,
            }),
            Err(error) => !(front_of(stream@.skip(*old(at) as int)) is Whole) && error@
                == error_at_end(stream@.skip(*old(at) as int)),
        },
{
    let start: usize = *at;
    assert(stream.len() == stream@.len());
    match attempt_frame(stream, start) {
        Attempt::Partial => {
            *at = stream.len();
            if start == stream.len() {
                Err(FrameError::Closed)
            } else {
                Err(FrameError::UnexpectedEof)
            }
        },
        Attempt::Bad(error) => {
            if let FrameError::Oversized { .. } = error {
                *at = start + 4;
            } else {
                *at = start + 5;
            }
            Err(error)
        },
        Attempt::Whole(frame, n) => {
            *at = start + n;
            Ok(frame)
        },
    }
}

/// Reassembles frames from a stream that arrives in pieces.
#[derive(Debug)]
pub struct FrameDecoder {
    buffer: Vec<u8>,
}

impl View for FrameDecoder {
    type V = Seq<u8>;

    /// The bytes that arrived and were not yet taken out as frames.
    closed spec fn view(&self) -> Seq<u8> {
        self.buffer@
    }
}

impl FrameDecoder {
    pub fn new() -> (decoder: FrameDecoder)
        ensures
            decoder@ == Seq::<u8>::empty(),
    {
        FrameDecoder { buffer: Vec::new() }
    }

    /// Takes in the next bytes of the stream.
    pub fn feed(&mut self, bytes: &[u8])
        ensures
            final(self)@ == old(self)@ + bytes@,
    {
        push_all(&mut self.buffer, bytes);
    }

    /// Takes the next frame out, if it is whole. A bad frame stays where it
    /// is: the stream cannot go on behind it.
    pub fn next_frame(&mut self) -> (result: Result<Option<Frame>, FrameError>)
        ensures
            match result {
                Ok(Some(frame)) => front_of(old(self)@) == (Front::Whole {
                    channel: frame.channel,
                    payload: frame.payload@,
                }) && final(self)@ == old(self)@.skip(consumed(old(self)@)),
                Ok(None) => front_of(old(self)@) is Partial && final(self)@ == old(self)@,
                Err(error) => (front_of(old(self)@) is Oversized || front_of(old(self)@)
                    is UnknownChannel) && error@ == error_at_end(old(self)@) && final(self)@
                    == old(self)@,
            },
    {
        assert(self.buffer@.skip(0) =~= self.buffer@);
        match attempt_frame(self.buffer.as_slice(), 0) {
            Attempt::Partial => Ok(None),
            Attempt::Bad(error) => Err(error),
            Attempt::Whole(frame, n) => {
                let ghost before = self.buffer@;
                self.buffer = self.buffer.split_off(n);
                assert(self.buffer@ =~= before.skip(n as int));
                Ok(Some(frame))
            },
        }
    }

    /// The error of a stream that ends here.
    pub fn end_error(&self) -> (error: FrameError)
        requires
            front_of(self@) is Partial,
        ensures
            error@ == error_at_end(self@),
    {
        if self.buffer.len() == 0 {
            FrameError::Closed
        } else {
            FrameError::UnexpectedEof
        }
    }
}

// ---------------------------------------------------------------------------
// Laws
// ---------------------------------------------------------------------------

/// A written frame reads back, whatever follows it.
pub proof fn frames_round_trip(channel: Channel, payload: Seq<u8>, rest: Seq<u8>)
    requires
        payload.len() <= MAX_FRAME_PAYLOAD,
    ensures
        front_of(frame_bytes(channel, payload) + rest) == (Front::Whole { channel, payload }),
        consumed(frame_bytes(channel, payload) + rest) == frame_bytes(channel, payload).len(),
        (frame_bytes(channel, payload) + rest).skip(
            consumed(frame_bytes(channel, payload) + rest),
        ) == rest,
{
    let stream = frame_bytes(channel, payload) + rest;
    let len = payload.len();
    assert(stream[0] == (len % 256) as u8);
    assert(stream[1] == (len / 256 % 256) as u8);
    assert(stream[2] == (len / 65536 % 256) as u8);
    assert(stream[3] == (len / 16777216 % 256) as u8);
    assert(stream[4] == channel.code());
    assert(declared_length(stream) == len);
    assert(stream.subrange(5, 5 + len as int) =~= payload);
    assert(stream.skip(5 + len as int) =~= rest);
}

/// Once the front of a stream is a whole frame or an error, what arrives
/// later does not change it: split reads reassemble to the same frames.
pub proof fn later_bytes_change_nothing(stream: Seq<u8>, more: Seq<u8>)
    requires
        !(front_of(stream) is Partial),
    ensures
        front_of(stream + more) == front_of(stream),
        consumed(stream + more) == consumed(stream),
        (stream + more).skip(consumed(stream)) == stream.skip(consumed(stream)) + more,
{
    let whole = stream + more;
    assert(whole[0] == stream[0] && whole[1] == stream[1] && whole[2] == stream[2] && whole[3]
        == stream[3]);
    assert(declared_length(whole) == declared_length(stream));
    if stream.len() >= 5 {
        assert(whole[4] == stream[4]);
    }
    if let Front::Whole { payload, .. } = front_of(stream) {
        assert(whole.subrange(5, 5 + declared_length(stream) as int) =~= payload);
    }
    assert(whole.skip(consumed(stream)) =~= stream.skip(consumed(stream)) + more);
}

/// A declared length over the cap is refused on the length alone, before the
/// channel or any of the payload has arrived.
pub proof fn oversized_is_refused_on_the_length(stream: Seq<u8>)
    requires
        stream.len() >= 4,
        declared_length(stream) > MAX_FRAME_PAYLOAD,
    ensures
        error_at_end(stream) == (FrameErrorModel::Oversized {
            declared: declared_length(stream) as u32,
        }),
        front_of(stream.subrange(0, 4)) is Oversized,
{
}

/// No frame that is read is over the cap, and reading one moves on.
pub proof fn read_frames_are_bounded(stream: Seq<u8>)
    ensures
        front_of(stream) matches Front::Whole { payload, .. } ==> payload.len()
            <= MAX_FRAME_PAYLOAD && 5 <= consumed(stream) <= stream.len(),
{
}

/// Different channels have different bytes, and every channel reads back.
pub proof fn channel_bytes_round_trip(channel: Channel)
    ensures
        channel_of(channel.code()) == Some(channel),
{
}

/// A frame on the wire: the payload's length in four bytes, the lowest first;
/// a byte for the channel, 0 for control, 1 for standard input, 2 for standard
/// output and 3 for standard error; and the payload.
pub proof fn frames_on_the_wire(channel: Channel, payload: Seq<u8>)
    requires
        payload.len() < 0x1_0000_0000,
    ensures
        ({
            let bytes = frame_bytes(channel, payload);
            &&& bytes.len() == 5 + payload.len()
            &&& bytes[0] + 0x100 * bytes[1] + 0x1_0000 * bytes[2] + 0x100_0000 * bytes[3]
                == payload.len()
            &&& bytes[4] == match channel {
                Channel::Control => 0u8,
                Channel::Stdin => 1u8,
                Channel::Stdout => 2u8,
                Channel::Stderr => 3u8,
            }
            &&& bytes.skip(5) == payload
        }),
{
    assert(frame_bytes(channel, payload).skip(5) =~= payload);
}

/// What stands at the front of a stream, exactly: a frame where the stream
/// begins with the bytes of that frame and its payload is at most 16777216
/// bytes long; a length over that as soon as four bytes declare one; an unknown
/// channel as soon as the fifth byte is over 3; and nothing yet otherwise.
pub proof fn fronts_are_exact(stream: Seq<u8>, channel: Channel, payload: Seq<u8>)
    ensures
        front_of(stream) == (Front::Whole { channel, payload }) <==> payload.len() <= 16_777_216
            && frame_bytes(channel, payload).is_prefix_of(stream),
        front_of(stream) is Oversized <==> stream.len() >= 4 && stream[0] + 0x100 * stream[1]
            + 0x1_0000 * stream[2] + 0x100_0000 * stream[3] > 16_777_216,
        front_of(stream) matches Front::Oversized { declared } ==> declared == stream[0] + 0x100
            * stream[1] + 0x1_0000 * stream[2] + 0x100_0000 * stream[3],
        front_of(stream) is UnknownChannel <==> !(front_of(stream) is Oversized) && stream.len()
            >= 5 && stream[4] > 3,
        front_of(stream) matches Front::UnknownChannel(byte) ==> byte == stream[4],
{
    let bytes = frame_bytes(channel, payload);
    if payload.len() <= 16_777_216 && bytes.is_prefix_of(stream) {
        assert(stream =~= bytes + stream.skip(bytes.len() as int)) by {
            assert(stream.subrange(0, bytes.len() as int) =~= bytes);
        }
        frames_round_trip(channel, payload, stream.skip(bytes.len() as int));
    }
    if front_of(stream) == (Front::Whole { channel, payload }) {
        let head = stream.subrange(0, bytes.len() as int);
        let n = declared_length(stream);
        assert(payload.len() == n);
        assert(head.skip(5) =~= payload);
        assert(n % 256 == stream[0] && n / 256 % 256 == stream[1] && n / 65536 % 256 == stream[2]
            && n / 16777216 % 256 == stream[3]);
        assert(channel.code() == stream[4]);
        assert(bytes =~= head);
    }
}

/// How a stream without a whole frame ends: closed, where it is empty;
/// otherwise by what is wrong with it, or else in the middle of a frame. And
/// how far reading gets: over the frame, or over what told the error, or to the
/// end.
pub proof fn ends_are_told_apart(stream: Seq<u8>)
    requires
        !(front_of(stream) is Whole),
    ensures
        error_at_end(stream) is Closed <==> stream.len() == 0,
        error_at_end(stream) is UnexpectedEof <==> stream.len() > 0 && front_of(stream) is Partial,
        front_of(stream) matches Front::Oversized { declared } ==> error_at_end(stream) == (
        FrameErrorModel::Oversized { declared }) && consumed(stream) == 4,
        front_of(stream) matches Front::UnknownChannel(byte) ==> error_at_end(stream)
            == FrameErrorModel::UnknownChannel(byte) && consumed(stream) == 5,
        front_of(stream) is Partial ==> consumed(stream) == stream.len(),
{
}

} // verus!
