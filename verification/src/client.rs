//! Host-side exec client: drives one exec over a framed stream.

use vstd::prelude::*;
use vstd::slice::slice_subrange;
use vstd::string::*;
use vstd::utf8::encode_utf8;
use crate::bytes::push_all;
use crate::frame::{
    consumed, error_at_end, frame_bytes, frames_round_trip, front_of, read_frame,
    read_frames_are_bounded, write_frame, Channel, Frame, FrameError, FrameErrorModel, Front,
    MAX_FRAME_PAYLOAD,
};
use crate::message::ControlMessage;
use crate::paths::texts;
use crate::policy::copy_text;

verus! {

#[derive(Debug, PartialEq, Eq)]
pub struct ExecRequest {
    pub command_line: String,
    pub env: Vec<String>,
    pub cwd: Option<String>,
    pub timeout_ms: Option<u64>,
}

#[derive(Clone, Debug, PartialEq, Eq)]
pub struct ExecOutcome {
    pub exit_code: i32,
    pub stdout: Vec<u8>,
    pub stderr: Vec<u8>,
}

#[derive(Clone, Debug, PartialEq, Eq)]
pub enum ExecError {
    Frame(FrameError),
    /// The agent reported a failure (e.g. spawn error).
    Agent(String),
    /// The agent violated the protocol.
    Protocol(String),
}

/// What an exec error says.
pub enum ExecErrorModel {
    Frame(FrameErrorModel),
    Agent(Seq<char>),
    Protocol(Seq<char>),
}

impl View for ExecError {
    type V = ExecErrorModel;

    open spec fn view(&self) -> ExecErrorModel {
        match self {
            ExecError::Frame(error) => ExecErrorModel::Frame(error@),
            ExecError::Agent(message) => ExecErrorModel::Agent(message@),
            ExecError::Protocol(message) => ExecErrorModel::Protocol(message@),
        }
    }
}

impl ExecErrorModel {
    /// The message shown for this error.
    pub open spec fn text(self) -> Seq<char> {
        match self {
            ExecErrorModel::Frame(error) => "exec transport error: "@ + error.text(),
            ExecErrorModel::Agent(message) => "guest agent error: "@ + message,
            ExecErrorModel::Protocol(message) => "protocol violation from guest: "@ + message,
        }
    }
}

impl ExecError {
    /// The message shown for this error.
    pub fn message(&self) -> (message: String)
        ensures
            message@ == self@.text(),
    {
        match self {
            ExecError::Frame(error) => {
                let mut m: String = "exec transport error: ".to_string();
                let inner: String = error.message();
                m.append(inner.as_str());
                m
            },
            ExecError::Agent(message) => {
                let mut m: String = "guest agent error: ".to_string();
                m.append(message.as_str());
                m
            },
            ExecError::Protocol(message) => {
                let mut m: String = "protocol violation from guest: ".to_string();
                m.append(message.as_str());
                m
            },
        }
    }
}

/// Outcome of a deadline-bounded exec: either the agent reported completion,
/// or the deadline passed and the guest was force-stopped.
#[derive(Clone, Debug, PartialEq, Eq)]
pub enum ExecCompletion {
    Completed(ExecOutcome),
    TimedOut,
}

/// Per-stream cap on collected output: 8 MiB. The guest owns these byte
/// streams; without a ceiling one exec could grow host memory without bound.
pub const MAX_CAPTURED_STREAM: usize = 8_388_608;

/// Appended exactly once to a stream that exceeds the cap, so that a consumer
/// can tell that the output was truncated.
pub const STREAM_TRUNCATION_MARKER: &'static str = "\n[output truncated: stream exceeded capture cap]\n";

pub open spec fn marker_bytes() -> Seq<u8> {
    encode_utf8(STREAM_TRUNCATION_MARKER@)
}

/// What is kept of a stream: all of it up to the cap, else its head and the
/// truncation marker.
pub open spec fn captured(total: Seq<u8>) -> Seq<u8> {
    if total.len() <= MAX_CAPTURED_STREAM {
        total
    } else {
        total.subrange(0, MAX_CAPTURED_STREAM as int) + marker_bytes()
    }
}

/// A captured stream after more of it: it stops growing once it exceeds the
/// cap.
pub open spec fn capped(buf: Seq<u8>, bytes: Seq<u8>) -> Seq<u8> {
    if buf.len() > MAX_CAPTURED_STREAM {
        buf
    } else if buf.len() + bytes.len() <= MAX_CAPTURED_STREAM {
        buf + bytes
    } else {
        buf + bytes.subrange(0, MAX_CAPTURED_STREAM - buf.len()) + marker_bytes()
    }
}

/// Appends to a captured stream, enforcing the cap.
pub fn append_capped(buf: &mut Vec<u8>, bytes: &[u8])
    ensures
        final(buf)@ == capped(old(buf)@, bytes@),
{
    if buf.len() > MAX_CAPTURED_STREAM {
        return ;
    }
    let remaining: usize = MAX_CAPTURED_STREAM - buf.len();
    if bytes.len() <= remaining {
        push_all(buf, bytes);
    } else {
        push_all(buf, slice_subrange(bytes, 0, remaining));
        push_all(buf, STREAM_TRUNCATION_MARKER.as_bytes());
    }
}

proof fn marker_is_not_empty()
    ensures
        marker_bytes().len() > 0,
{
    reveal_strlit("\n[output truncated: stream exceeded capture cap]\n");
    let chars = STREAM_TRUNCATION_MARKER@;
    assert(chars.len() > 0);
    vstd::utf8::encode_utf8_first_scalar(chars);
    reveal_with_fuel(encode_utf8, 1);
}

/// However the bytes of a stream are split over frames, what is captured is
/// the same: the marker is appended exactly once, when the cap is first
/// exceeded.
pub proof fn captures_add_up(total: Seq<u8>, more: Seq<u8>)
    ensures
        capped(captured(total), more) == captured(total + more),
{
    marker_is_not_empty();
    let cap = MAX_CAPTURED_STREAM as int;
    if total.len() <= cap {
        if total.len() + more.len() > cap {
            assert((total + more).subrange(0, cap) =~= total + more.subrange(
                0,
                cap - total.len(),
            ));
        }
    } else {
        assert((total + more).subrange(0, cap) =~= total.subrange(0, cap));
    }
}

/// A captured stream is never longer than the cap and one marker.
pub proof fn captures_are_bounded(total: Seq<u8>)
    ensures
        captured(total).len() <= MAX_CAPTURED_STREAM + marker_bytes().len(),
        captured(total).len() <= MAX_CAPTURED_STREAM ==> captured(total) == total,
{
    marker_is_not_empty();
}

// ---------------------------------------------------------------------------
// Collecting what the agent sends
// ---------------------------------------------------------------------------

/// How the agent's stream ends the collection.
pub enum CollectEnd {
    /// With this control payload.
    Control(Seq<u8>),
    /// Without one.
    Failed(ExecErrorModel),
}

/// What the agent's stream amounts to: all bytes of both output streams up
/// to the end of the collection, and that end.
pub struct CollectModel {
    pub out: Seq<u8>,
    pub err: Seq<u8>,
    pub end: CollectEnd,
}

/// The error of a stream that ends without a control message.
pub open spec fn read_error(error: FrameErrorModel) -> ExecErrorModel {
    match error {
        FrameErrorModel::Closed => ExecErrorModel::Protocol(
            "guest closed the stream before reporting an exit code"@,
        ),
        _ => ExecErrorModel::Frame(error),
    }
}

/// What `stream` amounts to behind output that was already seen. Output
/// frames are drained, past the cap too, until a control frame or a violation
/// ends the collection.
pub open spec fn collect_from(stream: Seq<u8>, out: Seq<u8>, err: Seq<u8>) -> CollectModel
    decreases stream.len(),
{
    match front_of(stream) {
        Front::Whole { channel, payload } => {
            let rest = stream.skip(5 + payload.len() as int);
            match channel {
                Channel::Stdout => collect_from(rest, out + payload, err),
                Channel::Stderr => collect_from(rest, out, err + payload),
                Channel::Stdin => CollectModel {
                    out,
                    err,
                    end: CollectEnd::Failed(
                        ExecErrorModel::Protocol("guest sent a stdin frame to the host"@),
                    ),
                },
                Channel::Control => CollectModel { out, err, end: CollectEnd::Control(payload) },
            }
        },
        _ => CollectModel { out, err, end: CollectEnd::Failed(read_error(error_at_end(stream))) },
    }
}

/// What an outcome says.
#[verifier::ext_equal]
pub struct OutcomeModel {
    pub exit_code: i32,
    pub stdout: Seq<u8>,
    pub stderr: Seq<u8>,
}

impl View for ExecOutcome {
    type V = OutcomeModel;

    open spec fn view(&self) -> OutcomeModel {
        OutcomeModel {
            exit_code: self.exit_code,
            stdout: self.stdout@,
            stderr: self.stderr@,
        }
    }
}

/// What an exec comes to when its control payload decodes to `decoded`.
pub open spec fn conclusion(
    stdout: Seq<u8>,
    stderr: Seq<u8>,
    decoded: Result<ControlMessage, String>,
) -> Result<OutcomeModel, ExecErrorModel> {
    match decoded {
        Ok(ControlMessage::Exit { code }) => Ok(OutcomeModel { exit_code: code, stdout, stderr }),
        Ok(ControlMessage::Error { message }) => Err(ExecErrorModel::Agent(message@)),
        Ok(ControlMessage::Exec { .. }) => Err(
            ExecErrorModel::Protocol("guest echoed an exec request"@),
        ),
        Err(reason) => Err(ExecErrorModel::Protocol("invalid control frame: "@ + reason@)),
    }
}

/// What an exec comes to over the agent's whole stream.
pub open spec fn outcome_of(stream: Seq<u8>, decoded: Result<ControlMessage, String>) -> Result<
    OutcomeModel,
    ExecErrorModel,
> {
    let collected = collect_from(stream, Seq::empty(), Seq::empty());
    match collected.end {
        CollectEnd::Control(_) => conclusion(
            captured(collected.out),
            captured(collected.err),
            decoded,
        ),
        CollectEnd::Failed(error) => Err(error),
    }
}

pub open spec fn result_model(result: Result<ExecOutcome, ExecError>) -> Result<
    OutcomeModel,
    ExecErrorModel,
> {
    match result {
        Ok(outcome) => Ok(outcome@),
        Err(error) => Err(error@),
    }
}

/// What to do after a frame from the agent.
#[derive(Debug)]
pub enum CollectStep {
    /// Read on.
    More,
    /// Decode this control payload, then conclude.
    Control(Vec<u8>),
    Failed(ExecError),
}

/// Collects the output of one exec, frame by frame.
#[derive(Debug)]
pub struct Collector {
    pub stdout: Vec<u8>,
    pub stderr: Vec<u8>,
}

impl Collector {
    pub fn new() -> (collector: Collector)
        ensures
            collector.stdout@ == Seq::<u8>::empty(),
            collector.stderr@ == Seq::<u8>::empty(),
    {
        Collector { stdout: Vec::new(), stderr: Vec::new() }
    }

    /// Takes in a frame. Output is capped per stream, but drained past the
    /// cap, so that the exit code still arrives.
    pub fn on_frame(&mut self, frame: Frame) -> (step: CollectStep)
        ensures
            match frame.channel {
                Channel::Stdout => step is More && final(self).stdout@ == capped(
                    old(self).stdout@,
                    frame.payload@,
                ) && final(self).stderr@ == old(self).stderr@,
                Channel::Stderr => step is More && final(self).stderr@ == capped(
                    old(self).stderr@,
                    frame.payload@,
                ) && final(self).stdout@ == old(self).stdout@,
                Channel::Stdin => step matches CollectStep::Failed(error) && error@
                    == ExecErrorModel::Protocol("guest sent a stdin frame to the host"@)
                    && *final(self) == *old(self),
                Channel::Control => step matches CollectStep::Control(payload) && payload@
                    == frame.payload@ && *final(self) == *old(self),
            },
    {
        match frame.channel {
            Channel::Stdout => {
                append_capped(&mut self.stdout, frame.payload.as_slice());
                CollectStep::More
            },
            Channel::Stderr => {
                append_capped(&mut self.stderr, frame.payload.as_slice());
                CollectStep::More
            },
            Channel::Stdin => CollectStep::Failed(
                ExecError::Protocol("guest sent a stdin frame to the host".to_string()),
            ),
            Channel::Control => CollectStep::Control(frame.payload),
        }
    }

    /// Concludes with what the control payload decoded to, or the decoder's
    /// complaint.
    pub fn conclude(self, decoded: Result<ControlMessage, String>) -> (result: Result<
        ExecOutcome,
        ExecError,
    >)
        ensures
            result_model(result) == conclusion(self.stdout@, self.stderr@, decoded),
    {
        match decoded {
            Ok(ControlMessage::Exit { code }) => Ok(
                ExecOutcome { exit_code: code, stdout: self.stdout, stderr: self.stderr },
            ),
            Ok(ControlMessage::Error { message }) => Err(ExecError::Agent(message)),
            Ok(ControlMessage::Exec { .. }) => Err(
                ExecError::Protocol("guest echoed an exec request".to_string()),
            ),
            Err(reason) => {
                let mut text: String = "invalid control frame: ".to_string();
                text.append(reason.as_str());
                Err(ExecError::Protocol(text))
            },
        }
    }
}

/// The exec error for a failed read. A clean close counts as a violation: the
/// agent owes an exit code.
pub fn on_read_error(error: FrameError) -> (result: ExecError)
    ensures
        result@ == read_error(error@),
{
    match error {
        FrameError::Closed => ExecError::Protocol(
            "guest closed the stream before reporting an exit code".to_string(),
        ),
        _ => ExecError::Frame(error),
    }
}

/// Collects output from the agent's stream until it reports how the exec
/// ended. `decoded` is what the first control payload of the stream decodes
/// to; where the stream has none, it is not looked at.
pub fn exec_collect(stream: &[u8], decoded: Result<ControlMessage, String>) -> (result: Result<
    ExecOutcome,
    ExecError,
>)
    ensures
        result_model(result) == outcome_of(stream@, decoded),
{
    let mut collector: Collector = Collector::new();
    let mut at: usize = 0;
    let ghost mut out: Seq<u8> = Seq::empty();
    let ghost mut err: Seq<u8> = Seq::empty();
    let ghost whole = collect_from(stream@, Seq::empty(), Seq::empty());
    assert(stream@.skip(0) =~= stream@);
    loop
        invariant
            at <= stream@.len(),
            whole == collect_from(stream@, Seq::empty(), Seq::empty()),
            whole == collect_from(stream@.skip(at as int), out, err),
            collector.stdout@ == captured(out),
            collector.stderr@ == captured(err),
        decreases stream@.len() - at,
    {
        let ghost rest = stream@.skip(at as int);
        let ghost start = at as int;
        match read_frame(stream, &mut at) {
            Ok(frame) => {
                proof {
                    read_frames_are_bounded(rest);
                    assert(rest.skip(consumed(rest)) =~= stream@.skip(at as int));
                    captures_add_up(out, frame.payload@);
                    captures_add_up(err, frame.payload@);
                    match frame.channel {
                        Channel::Stdout => {
                            out = out + frame.payload@;
                        },
                        Channel::Stderr => {
                            err = err + frame.payload@;
                        },
                        _ => {},
                    }
                }
                match collector.on_frame(frame) {
                    CollectStep::More => {},
                    CollectStep::Control(_) => {
                        return collector.conclude(decoded);
                    },
                    CollectStep::Failed(error) => {
                        return Err(error);
                    },
                }
            },
            Err(error) => {
                return Err(on_read_error(error));
            },
        }
    }
}

/// What a deadline-bounded exec comes to: `None` is a missed deadline, which
/// is an outcome, not an error.
pub open spec fn completion_of(ended: Option<Result<ExecOutcome, ExecError>>) -> Result<
    ExecCompletion,
    ExecError,
> {
    match ended {
        Some(Ok(outcome)) => Ok(ExecCompletion::Completed(outcome)),
        Some(Err(error)) => Err(error),
        None => Ok(ExecCompletion::TimedOut),
    }
}

/// What came of a deadline-bounded exec.
pub fn completion(result: Option<Result<ExecOutcome, ExecError>>) -> (completion: Result<
    ExecCompletion,
    ExecError,
>)
    ensures
        completion == completion_of(result),
{
    match result {
        Some(Ok(outcome)) => Ok(ExecCompletion::Completed(outcome)),
        Some(Err(error)) => Err(error),
        None => Ok(ExecCompletion::TimedOut),
    }
}

/// Concludes a deadline-bounded exec. `ended` is what the exec gave within its
/// deadline, errors included; `None` is a missed deadline. `force_stop` is
/// called once where the deadline was missed, and never otherwise: a caller
/// owes that it can be called only in that case. It kills the guest, and with
/// it the stream that the exec still waits on.
pub fn exec_collect_with_timeout<F: FnOnce()>(
    ended: Option<Result<ExecOutcome, ExecError>>,
    force_stop: F,
) -> (result: Result<ExecCompletion, ExecError>)
    requires
        ended is None ==> force_stop.requires(()),
    ensures
        result == completion_of(ended),
        ended is None ==> force_stop.ensures((), ()),
{
    if ended.is_none() {
        force_stop();
    }
    completion(ended)
}

// ---------------------------------------------------------------------------
// What the host sends
// ---------------------------------------------------------------------------

/// Whether `message` asks for exactly `request`.
pub open spec fn asks_for(message: ControlMessage, request: ExecRequest) -> bool {
    message matches ControlMessage::Exec { command_line, env, cwd, timeout_ms } && command_line@
        == request.command_line@ && texts(env@) == texts(request.env@) && cwd == request.cwd
        && timeout_ms == request.timeout_ms
}

/// A copy of a list of strings.
pub fn copy_texts(strings: &Vec<String>) -> (copy: Vec<String>)
    ensures
        copy@ == strings@,
{
    let mut copy: Vec<String> = Vec::new();
    let mut i: usize = 0;
    while i < strings.len()
        invariant
            i <= strings@.len(),
            copy@ == strings@.subrange(0, i as int),
        decreases strings@.len() - i,
    {
        copy.push(strings[i].clone());
        i = i + 1;
        assert(copy@ =~= strings@.subrange(0, i as int));
    }
    assert(copy@ =~= strings@);
    copy
}

/// The control message for a request.
pub fn exec_message(request: &ExecRequest) -> (message: ControlMessage)
    ensures
        asks_for(message, *request),
{
    ControlMessage::Exec {
        command_line: request.command_line.clone(),
        env: copy_texts(&request.env),
        cwd: copy_text(&request.cwd),
        timeout_ms: request.timeout_ms,
    }
}

/// Standard input in frames of at most the cap.
pub open spec fn stdin_frames(stdin: Seq<u8>) -> Seq<u8>
    decreases stdin.len(),
{
    if stdin.len() == 0 {
        Seq::empty()
    } else if stdin.len() <= MAX_FRAME_PAYLOAD {
        frame_bytes(Channel::Stdin, stdin)
    } else {
        frame_bytes(Channel::Stdin, stdin.subrange(0, MAX_FRAME_PAYLOAD as int)) + stdin_frames(
            stdin.skip(MAX_FRAME_PAYLOAD as int),
        )
    }
}

/// All that the host sends for one exec: the request, standard input, and the
/// empty input frame that ends it.
pub open spec fn request_bytes(control: Seq<u8>, stdin: Seq<u8>) -> Seq<u8> {
    frame_bytes(Channel::Control, control) + stdin_frames(stdin) + frame_bytes(
        Channel::Stdin,
        Seq::empty(),
    )
}

/// Builds all that the host sends for one exec. `control` is the encoded
/// request.
pub fn build_request(control: &[u8], stdin: &[u8]) -> (result: Result<Vec<u8>, ExecError>)
    ensures
        match result {
            Ok(bytes) => control@.len() <= MAX_FRAME_PAYLOAD && bytes@ == request_bytes(
                control@,
                stdin@,
            ),
            Err(error) => control@.len() > MAX_FRAME_PAYLOAD && error@ == ExecErrorModel::Frame(
                FrameErrorModel::Oversized {
                    declared: (if control@.len() < u32::MAX {
                        control@.len() as int
                    } else {
                        u32::MAX as int
                    }) as u32,
                },
            ),
        },
{
    let mut bytes: Vec<u8> = Vec::new();
    if let Err(error) = write_frame(&mut bytes, Channel::Control, control) {
        return Err(ExecError::Frame(error));
    }
    let ghost start = bytes@;
    let len: usize = stdin.len();
    let mut at: usize = 0;
    assert(stdin@.skip(0) =~= stdin@);
    while at < len
        invariant
            at <= len,
            len == stdin@.len(),
            bytes@ + stdin_frames(stdin@.skip(at as int)) == start + stdin_frames(stdin@),
        decreases len - at,
    {
        let ghost rest = stdin@.skip(at as int);
        let end: usize = if len - at <= MAX_FRAME_PAYLOAD {
            len
        } else {
            at + MAX_FRAME_PAYLOAD
        };
        let chunk: &[u8] = slice_subrange(stdin, at, end);
        let ghost before = bytes@;
        proof {
            if end == len {
                assert(chunk@ =~= rest);
                assert(stdin@.skip(end as int) =~= Seq::empty());
            } else {
                assert(chunk@ =~= rest.subrange(0, MAX_FRAME_PAYLOAD as int));
                assert(rest.skip(MAX_FRAME_PAYLOAD as int) =~= stdin@.skip(end as int));
            }
            assert(stdin_frames(rest) =~= frame_bytes(Channel::Stdin, chunk@) + stdin_frames(
                stdin@.skip(end as int),
            ));
        }
        if let Err(error) = write_frame(&mut bytes, Channel::Stdin, chunk) {
            return Err(ExecError::Frame(error));
        }
        assert(bytes@ + stdin_frames(stdin@.skip(end as int)) =~= before + stdin_frames(rest));
        at = end;
    }
    assert(stdin@.skip(at as int) =~= Seq::empty());
    assert(bytes@ =~= start + stdin_frames(stdin@));
    let empty: Vec<u8> = Vec::new();
    if let Err(error) = write_frame(&mut bytes, Channel::Stdin, empty.as_slice()) {
        return Err(ExecError::Frame(error));
    }
    assert(empty@ =~= Seq::empty());
    assert(bytes@ =~= request_bytes(control@, stdin@));
    Ok(bytes)
}

// ---------------------------------------------------------------------------
// Laws
// ---------------------------------------------------------------------------

/// The bytes of all input frames at the front of a stream, up to the first
/// empty one or anything else.
pub open spec fn stdin_in(stream: Seq<u8>) -> Seq<u8>
    decreases stream.len(),
{
    match front_of(stream) {
        Front::Whole { channel, payload } => if channel == Channel::Stdin && payload.len() > 0 {
            payload + stdin_in(stream.skip(5 + payload.len() as int))
        } else {
            Seq::empty()
        },
        _ => Seq::empty(),
    }
}

/// Standard input arrives as it was sent, however long it is: chunking and
/// reassembly give it back, and the empty frame ends it.
pub proof fn stdin_round_trips(stdin: Seq<u8>)
    ensures
        stdin_in(stdin_frames(stdin) + frame_bytes(Channel::Stdin, Seq::empty())) == stdin,
    decreases stdin.len(),
{
    let eof = frame_bytes(Channel::Stdin, Seq::empty());
    if stdin.len() == 0 {
        assert(stdin_frames(stdin) + eof =~= eof + Seq::empty());
        frames_round_trip(Channel::Stdin, Seq::empty(), Seq::empty());
        assert(stdin =~= Seq::empty());
    } else if stdin.len() <= MAX_FRAME_PAYLOAD {
        frames_round_trip(Channel::Stdin, stdin, eof);
        stdin_round_trips(Seq::empty());
        assert(stdin_frames(Seq::empty()) + eof =~= eof);
        assert(stdin + Seq::<u8>::empty() =~= stdin);
    } else {
        let head = stdin.subrange(0, MAX_FRAME_PAYLOAD as int);
        let tail = stdin.skip(MAX_FRAME_PAYLOAD as int);
        stdin_round_trips(tail);
        let rest = stdin_frames(tail) + eof;
        assert(stdin_frames(stdin) + eof =~= frame_bytes(Channel::Stdin, head) + rest);
        frames_round_trip(Channel::Stdin, head, rest);
        assert(head + tail =~= stdin);
    }
}

/// Frames of output, as an agent sends them.
pub open spec fn output_bytes(frames: Seq<(Channel, Seq<u8>)>) -> Seq<u8>
    decreases frames.len(),
{
    if frames.len() == 0 {
        Seq::empty()
    } else {
        frame_bytes(frames[0].0, frames[0].1) + output_bytes(frames.skip(1))
    }
}

/// All that `frames` carry on `channel`, in order.
pub open spec fn output_on(frames: Seq<(Channel, Seq<u8>)>, channel: Channel) -> Seq<u8>
    decreases frames.len(),
{
    if frames.len() == 0 {
        Seq::empty()
    } else if frames[0].0 == channel {
        frames[0].1 + output_on(frames.skip(1), channel)
    } else {
        output_on(frames.skip(1), channel)
    }
}

/// Whether `frames` are frames of output.
pub open spec fn are_output(frames: Seq<(Channel, Seq<u8>)>) -> bool {
    forall|i: int|
        0 <= i < frames.len() ==> ((#[trigger] frames[i]).0 == Channel::Stdout || frames[i].0
            == Channel::Stderr) && frames[i].1.len() <= MAX_FRAME_PAYLOAD
}

/// One frame of output is added to what was seen on its stream.
proof fn collecting_one_frame(
    channel: Channel,
    payload: Seq<u8>,
    rest: Seq<u8>,
    out: Seq<u8>,
    err: Seq<u8>,
)
    requires
        channel == Channel::Stdout || channel == Channel::Stderr,
        payload.len() <= MAX_FRAME_PAYLOAD,
    ensures
        collect_from(frame_bytes(channel, payload) + rest, out, err) == if channel
            == Channel::Stdout {
            collect_from(rest, out + payload, err)
        } else {
            collect_from(rest, out, err + payload)
        },
{
    frames_round_trip(channel, payload, rest);
}

proof fn collecting_frames(
    frames: Seq<(Channel, Seq<u8>)>,
    rest: Seq<u8>,
    out: Seq<u8>,
    err: Seq<u8>,
)
    requires
        are_output(frames),
    ensures
        collect_from(output_bytes(frames) + rest, out, err) == collect_from(
            rest,
            out + output_on(frames, Channel::Stdout),
            err + output_on(frames, Channel::Stderr),
        ),
    decreases frames.len(),
{
    if frames.len() == 0 {
        assert(output_bytes(frames) + rest =~= rest);
        assert(out + Seq::<u8>::empty() =~= out);
        assert(err + Seq::<u8>::empty() =~= err);
    } else {
        let (channel, payload) = frames[0];
        let more = frames.skip(1);
        assert(are_output(more)) by {
            assert forall|i: int| 0 <= i < more.len() implies ((#[trigger] more[i]).0
                == Channel::Stdout || more[i].0 == Channel::Stderr) && more[i].1.len()
                <= MAX_FRAME_PAYLOAD by {
                assert(more[i] == frames[i + 1]);
            }
        }
        assert(output_bytes(frames) + rest =~= frame_bytes(channel, payload) + (output_bytes(more)
            + rest));
        collecting_one_frame(channel, payload, output_bytes(more) + rest, out, err);
        if channel == Channel::Stdout {
            collecting_frames(more, rest, out + payload, err);
            assert(out + payload + output_on(more, Channel::Stdout) =~= out + output_on(
                frames,
                Channel::Stdout,
            ));
        } else {
            collecting_frames(more, rest, out, err + payload);
            assert(err + payload + output_on(more, Channel::Stderr) =~= err + output_on(
                frames,
                Channel::Stderr,
            ));
        }
    }
}

/// An agent that sends any frames of output and then a control message is
/// collected exactly: each stream up to the cap, and what the message says,
/// whatever comes behind it.
pub proof fn collection_reads_what_the_agent_sent(
    frames: Seq<(Channel, Seq<u8>)>,
    control: Seq<u8>,
    rest: Seq<u8>,
    decoded: Result<ControlMessage, String>,
)
    requires
        are_output(frames),
        control.len() <= MAX_FRAME_PAYLOAD,
    ensures
        outcome_of(
            output_bytes(frames) + (frame_bytes(Channel::Control, control) + rest),
            decoded,
        ) == conclusion(
            captured(output_on(frames, Channel::Stdout)),
            captured(output_on(frames, Channel::Stderr)),
            decoded,
        ),
{
    let tail = frame_bytes(Channel::Control, control) + rest;
    let out = output_on(frames, Channel::Stdout);
    let err = output_on(frames, Channel::Stderr);
    collecting_frames(frames, tail, Seq::empty(), Seq::empty());
    frames_round_trip(Channel::Control, control, rest);
    assert(Seq::<u8>::empty() + out =~= out);
    assert(Seq::<u8>::empty() + err =~= err);
}

/// What is kept of a stream: up to 8388608 bytes all of it; of a longer one as
/// many bytes of its head, and then the marker.
pub proof fn captures_keep_the_head(total: Seq<u8>)
    ensures
        total.len() <= 8_388_608 ==> captured(total) == total,
        total.len() > 8_388_608 ==> captured(total).subrange(0, 8_388_608) == total.subrange(
            0,
            8_388_608,
        ) && captured(total).skip(8_388_608) == encode_utf8(
            "\n[output truncated: stream exceeded capture cap]\n"@,
        ),
{
    if total.len() > 8_388_608 {
        assert(captured(total).subrange(0, 8_388_608) =~= total.subrange(0, 8_388_608));
        assert(captured(total).skip(8_388_608) =~= marker_bytes());
    }
}

/// What an exec comes to, told by what the agent sends behind its output: an
/// exit code completes it with the output of each stream; a reported failure,
/// an echoed request and a message that does not decode are errors, and so is
/// an input frame; an end without a message is one too, by how it ends.
pub proof fn execs_come_to_what_the_agent_says(
    frames: Seq<(Channel, Seq<u8>)>,
    control: Seq<u8>,
    rest: Seq<u8>,
    decoded: Result<ControlMessage, String>,
)
    requires
        are_output(frames),
        control.len() <= 16_777_216,
    ensures
        ({
            let ended = outcome_of(
                output_bytes(frames) + (frame_bytes(Channel::Control, control) + rest),
                decoded,
            );
            match decoded {
                Ok(ControlMessage::Exit { code }) => ended == Ok::<OutcomeModel, ExecErrorModel>(
                    OutcomeModel {
                        exit_code: code,
                        stdout: captured(output_on(frames, Channel::Stdout)),
                        stderr: captured(output_on(frames, Channel::Stderr)),
                    },
                ),
                Ok(ControlMessage::Error { message }) => ended == Err::<
                    OutcomeModel,
                    ExecErrorModel,
                >(ExecErrorModel::Agent(message@)),
                Ok(ControlMessage::Exec { .. }) => ended matches Err(ExecErrorModel::Protocol(_)),
                Err(reason) => ended == Err::<OutcomeModel, ExecErrorModel>(
                    ExecErrorModel::Protocol("invalid control frame: "@ + reason@),
                ),
            }
        }),
        outcome_of(
            output_bytes(frames) + (frame_bytes(Channel::Stdin, control) + rest),
            decoded,
        ) matches Err(ExecErrorModel::Protocol(_)),
        front_of(rest) is Oversized || front_of(rest) is UnknownChannel || (front_of(rest)
            is Partial && rest.len() > 0) ==> outcome_of(output_bytes(frames) + rest, decoded)
            == Err::<OutcomeModel, ExecErrorModel>(ExecErrorModel::Frame(error_at_end(rest))),
        outcome_of(output_bytes(frames), decoded) == Err::<OutcomeModel, ExecErrorModel>(
            ExecErrorModel::Protocol("guest closed the stream before reporting an exit code"@),
        ),
{
    let none = Seq::<u8>::empty();
    collection_reads_what_the_agent_sent(frames, control, rest, decoded);
    let input = frame_bytes(Channel::Stdin, control) + rest;
    collecting_frames(frames, input, none, none);
    frames_round_trip(Channel::Stdin, control, rest);
    collecting_frames(frames, rest, none, none);
    collecting_frames(frames, none, none, none);
    assert(output_bytes(frames) + none =~= output_bytes(frames));
}

/// What the host sends ends the command's input: behind the request and the
/// input stands one empty input frame, and nothing more. Without input that is
/// all there is behind the request.
pub proof fn requests_end_the_input(control: Seq<u8>, stdin: Seq<u8>)
    ensures
        ({
            let bytes = request_bytes(control, stdin);
            &&& bytes.skip(bytes.len() - 5) == seq![0u8, 0u8, 0u8, 0u8, 1u8]
            &&& bytes.subrange(0, 5 + control.len() as int) == frame_bytes(
                Channel::Control,
                control,
            )
            &&& stdin.len() == 0 ==> bytes.len() == 10 + control.len()
        }),
{
    let bytes = request_bytes(control, stdin);
    assert(bytes.skip(bytes.len() - 5) =~= frame_bytes(Channel::Stdin, Seq::empty()));
    assert(frame_bytes(Channel::Stdin, Seq::empty()) =~= seq![0u8, 0u8, 0u8, 0u8, 1u8]);
    assert(bytes.subrange(0, 5 + control.len() as int) =~= frame_bytes(Channel::Control, control));
}

/// A message that asks for a request says all of it: the command line, each
/// variable in order, the working directory and the timeout.
pub proof fn messages_say_the_whole_request(message: ControlMessage, request: ExecRequest)
    requires
        asks_for(message, request),
    ensures
        message matches ControlMessage::Exec { command_line, env, cwd, timeout_ms } && {
            &&& command_line@ == request.command_line@
            &&& env@.len() == request.env@.len()
            &&& forall|i: int|
                0 <= i < env@.len() ==> (#[trigger] env@[i])@ == request.env@[i]@
            &&& cwd == request.cwd
            &&& timeout_ms == request.timeout_ms
        },
{
    if let ControlMessage::Exec { env, .. } = message {
        let ours = texts(env@);
        let theirs = texts(request.env@);
        assert(ours.len() == env@.len() && theirs.len() == request.env@.len());
        assert forall|i: int| 0 <= i < env@.len() implies (#[trigger] env@[i])@
            == request.env@[i]@ by {
            assert(ours[i] == theirs[i]);
        }
    }
}

/// A deadline-bounded exec comes to what the exec gave in time, an outcome or
/// an error; without anything in time it is a timeout, and no error.
pub proof fn deadlines_decide(outcome: ExecOutcome, error: ExecError)
    ensures
        completion_of(Some(Ok(outcome))) == Ok::<ExecCompletion, ExecError>(
            ExecCompletion::Completed(outcome),
        ),
        completion_of(Some(Err(error))) == Err::<ExecCompletion, ExecError>(error),
        completion_of(None) == Ok::<ExecCompletion, ExecError>(ExecCompletion::TimedOut),
{
}

/// A stream that was cut off stays as it is, whatever more of it comes; and up
/// to the cap nothing is lost.
pub proof fn cut_streams_stay_cut(buf: Seq<u8>, bytes: Seq<u8>)
    ensures
        buf.len() > 8_388_608 ==> capped(buf, bytes) == buf,
        buf.len() + bytes.len() <= 8_388_608 ==> capped(buf, bytes) == buf + bytes,
        buf.len() <= 8_388_608 ==> buf.is_prefix_of(capped(buf, bytes)),
{
    if buf.len() <= 8_388_608 {
        assert(capped(buf, bytes).subrange(0, buf.len() as int) =~= buf);
    }
}

/// The message of an error ends in what went wrong.
pub proof fn messages_end_in_the_reason(reason: Seq<char>, error: FrameErrorModel)
    ensures
        ExecErrorModel::Agent(reason).text() == "guest agent error: "@ + reason,
        ExecErrorModel::Protocol(reason).text() == "protocol violation from guest: "@ + reason,
        ExecErrorModel::Frame(error).text() == "exec transport error: "@ + error.text(),
{
}

} // verus!
