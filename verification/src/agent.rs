//! Guest-side exec agent: what one framed connection asks for, and what it
//! is answered.
//!
//! Per connection: the first frame must be a control message with an exec
//! request. The command line runs through the guest's shell with the
//! request's environment and working directory. Input frames feed the
//! command; an empty one ends its input. The exit code ends the exchange.

use vstd::prelude::*;
use vstd::string::*;
use crate::bytes::push_all;
use crate::client::{asks_for, request_bytes, stdin_frames, ExecRequest};
use crate::frame::{
    consumed, error_at_end, frame_bytes, frames_round_trip, front_of, read_frame,
    read_frames_are_bounded, Channel, Frame, FrameError, Front, MAX_FRAME_PAYLOAD,
};
use crate::message::ControlMessage;
use crate::paths::texts;
use crate::text::{chars_of, find_char, index_of, index_of_is, number_value, parse_number, same_text, string_of};

verus! {

/// What the agent is to run.
#[derive(Clone, Debug, PartialEq, Eq)]
pub struct AgentCommand {
    pub command_line: String,
    pub env: Vec<(String, String)>,
    pub cwd: Option<String>,
}

/// What the agent is to run, and the input to feed it.
#[derive(Clone, Debug, PartialEq, Eq)]
pub struct AgentJob {
    pub command: AgentCommand,
    pub stdin: Vec<u8>,
}

/// The variables that `KEY=VALUE` entries set: each is split at its first
/// equals sign, and one without is skipped.
pub open spec fn env_pairs(entries: Seq<Seq<char>>) -> Seq<(Seq<char>, Seq<char>)>
    decreases entries.len(),
{
    if entries.len() == 0 {
        Seq::empty()
    } else {
        let front = env_pairs(entries.drop_last());
        let entry = entries.last();
        let at = index_of(entry, '=');
        if at < entry.len() {
            front.push((entry.subrange(0, at), entry.skip(at + 1)))
        } else {
            front
        }
    }
}

pub open spec fn pair_models(pairs: Seq<(String, String)>) -> Seq<(Seq<char>, Seq<char>)> {
    pairs.map_values(|p: (String, String)| (p.0@, p.1@))
}

pub open spec fn channel_name(channel: Channel) -> Seq<char> {
    match channel {
        Channel::Control => "Control"@,
        Channel::Stdin => "Stdin"@,
        Channel::Stdout => "Stdout"@,
        Channel::Stderr => "Stderr"@,
    }
}

fn channel_label(channel: Channel) -> (label: &'static str)
    ensures
        label@ == channel_name(channel),
{
    match channel {
        Channel::Control => "Control",
        Channel::Stdin => "Stdin",
        Channel::Stdout => "Stdout",
        Channel::Stderr => "Stderr",
    }
}

/// The control payload that opens a connection, or what the peer is told
/// instead.
pub fn check_first(first: Result<Frame, FrameError>) -> (result: Result<Vec<u8>, String>)
    ensures
        match first {
            Ok(frame) => if frame.channel == Channel::Control {
                result matches Ok(payload) && payload@ == frame.payload@
            } else {
                result matches Err(message) && message@ == "expected a control frame first, got "@
                    + channel_name(frame.channel)
            },
            Err(error) => result matches Err(message) && message@ == "reading exec request: "@
                + error@.text(),
        },
{
    match first {
        Ok(frame) => {
            if frame.channel == Channel::Control {
                Ok(frame.payload)
            } else {
                let mut m: String = "expected a control frame first, got ".to_string();
                m.append(channel_label(frame.channel));
                Err(m)
            }
        },
        Err(error) => {
            let mut m: String = "reading exec request: ".to_string();
            let inner: String = error.message();
            m.append(inner.as_str());
            Err(m)
        },
    }
}

fn split_env(entries: &Vec<String>) -> (pairs: Vec<(String, String)>)
    ensures
        pair_models(pairs@) == env_pairs(texts(entries@)),
{
    let ghost all = texts(entries@);
    let mut pairs: Vec<(String, String)> = Vec::new();
    let mut i: usize = 0;
    assert(pair_models(pairs@) =~= env_pairs(all.subrange(0, 0)));
    while i < entries.len()
        invariant
            i <= entries@.len(),
            all == texts(entries@),
            pair_models(pairs@) == env_pairs(all.subrange(0, i as int)),
        decreases entries@.len() - i,
    {
        let chars: Vec<char> = chars_of(entries[i].as_str());
        let len: usize = chars.len();
        let at: usize = find_char(&chars, 0, len, '=');
        assert(chars@.subrange(0, len as int) =~= chars@);
        assert(all.subrange(0, i + 1).drop_last() =~= all.subrange(0, i as int));
        if at < len {
            let key: String = string_of(&chars, 0, at);
            let value: String = string_of(&chars, at + 1, len);
            let ghost before = pairs@;
            assert(chars@.subrange(at + 1, len as int) =~= chars@.skip(at + 1));
            pairs.push((key, value));
            assert(pair_models(pairs@) =~= pair_models(before).push((key@, value@)));
        }
        i = i + 1;
    }
    assert(all.subrange(0, i as int) =~= all);
    pairs
}

/// Whether `command` is what the decoded opening message asks for, or
/// `result` is what the peer is told instead.
pub open spec fn answers_opening(
    decoded: Result<ControlMessage, String>,
    result: Result<AgentCommand, String>,
) -> bool {
    match decoded {
        Ok(ControlMessage::Exec { command_line, env, cwd, timeout_ms }) => result matches Ok(
            command,
        ) && command.command_line@ == command_line@ && pair_models(command.env@) == env_pairs(
            texts(env@),
        ) && command.cwd == cwd,
        Ok(_) => result matches Err(message) && message@
            == "expected an exec request as the first control message"@,
        Err(reason) => result matches Err(message) && message@ == "invalid exec request: "@
            + reason@,
    }
}

/// The command in the decoded opening message. The request's timeout is not
/// the guest's to enforce.
pub fn check_request(decoded: Result<ControlMessage, String>) -> (result: Result<
    AgentCommand,
    String,
>)
    ensures
        answers_opening(decoded, result),
{
    match decoded {
        Ok(ControlMessage::Exec { command_line, env, cwd, .. }) => {
            let pairs: Vec<(String, String)> = split_env(&env);
            Ok(AgentCommand { command_line, env: pairs, cwd })
        },
        Ok(_) => Err("expected an exec request as the first control message".to_string()),
        Err(reason) => {
            let mut m: String = "invalid exec request: ".to_string();
            m.append(reason.as_str());
            Err(m)
        },
    }
}

/// What to do with the next frame while the command runs.
#[derive(Clone, Debug, PartialEq, Eq)]
pub enum StdinStep {
    /// Write this to the command's input.
    Write(Vec<u8>),
    /// Read on.
    Skip,
    /// Close the command's input, and stop reading.
    Finish,
}

/// Decides on the next frame while the command runs. `open` says whether the
/// command still takes input: once it has stopped reading, frames are drained
/// all the same. Frames of other channels are tolerated.
pub fn stdin_step(next: Result<Frame, FrameError>, open: bool) -> (step: StdinStep)
    ensures
        match next {
            Ok(frame) => if frame.channel != Channel::Stdin {
                step is Skip
            } else if frame.payload@.len() == 0 {
                step is Finish
            } else if open {
                step matches StdinStep::Write(bytes) && bytes@ == frame.payload@
            } else {
                step is Skip
            },
            Err(_) => step is Finish,
        },
{
    match next {
        Ok(frame) => {
            if frame.channel != Channel::Stdin {
                StdinStep::Skip
            } else if frame.payload.len() == 0 {
                StdinStep::Finish
            } else if open {
                StdinStep::Write(frame.payload)
            } else {
                StdinStep::Skip
            }
        },
        Err(_) => StdinStep::Finish,
    }
}

/// The input that a stream holds for a command that reads all of it.
pub open spec fn input_of(stream: Seq<u8>) -> Seq<u8>
    decreases stream.len(),
{
    match front_of(stream) {
        Front::Whole { channel, payload } => {
            let rest = stream.skip(5 + payload.len() as int);
            if channel != Channel::Stdin {
                input_of(rest)
            } else if payload.len() == 0 {
                Seq::empty()
            } else {
                payload + input_of(rest)
            }
        },
        _ => Seq::empty(),
    }
}

/// Serves one connection as far as its bytes say: what is to run, with which
/// input, or what the peer is told instead. `stream` is all that the peer
/// sends; `decoded` is what its first control payload decodes to, not looked
/// at where the first frame is no control frame.
pub fn serve_connection(stream: &[u8], decoded: Result<ControlMessage, String>) -> (result: Result<
    AgentJob,
    String,
>)
    ensures
        match front_of(stream@) {
            Front::Whole { channel, payload } => if channel == Channel::Control {
                match result {
                    Ok(job) => answers_opening(decoded, Ok(job.command)) && job.stdin@ == input_of(
                        stream@.skip(5 + payload.len() as int),
                    ),
                    Err(message) => answers_opening(decoded, Err(message)),
                }
            } else {
                result matches Err(message) && message@ == "expected a control frame first, got "@
                    + channel_name(channel)
            },
            _ => result matches Err(message) && message@ == "reading exec request: "@
                + error_at_end(stream@).text(),
        },
{
    let mut at: usize = 0;
    assert(stream@.skip(0) =~= stream@);
    if let Err(message) = check_first(read_frame(stream, &mut at)) {
        return Err(message);
    }
    let command: AgentCommand = match check_request(decoded) {
        Ok(command) => command,
        Err(message) => {
            return Err(message);
        },
    };
    let ghost first = at as int;
    let mut stdin: Vec<u8> = Vec::new();
    assert(stdin@ + input_of(stream@.skip(first)) =~= input_of(stream@.skip(first)));
    loop
        invariant_except_break
            input_of(stream@.skip(first)) == stdin@ + input_of(stream@.skip(at as int)),
        invariant
            at <= stream@.len(),
        ensures
            stdin@ == input_of(stream@.skip(first)),
        decreases stream@.len() - at,
    {
        let ghost rest = stream@.skip(at as int);
        let ghost before = stdin@;
        let next: Result<Frame, FrameError> = read_frame(stream, &mut at);
        proof {
            read_frames_are_bounded(rest);
            if front_of(rest) is Whole {
                assert(rest.skip(consumed(rest)) =~= stream@.skip(at as int));
            }
        }
        match stdin_step(next, true) {
            StdinStep::Write(bytes) => {
                push_all(&mut stdin, bytes.as_slice());
                assert(before + (bytes@ + input_of(stream@.skip(at as int))) =~= stdin@ + input_of(
                    stream@.skip(at as int),
                ));
            },
            StdinStep::Skip => {},
            StdinStep::Finish => {
                assert(stdin@ + Seq::<u8>::empty() =~= stdin@);
                break;
            },
        }
    }
    Ok(AgentJob { command, stdin })
}

/// The exit code to report: the command's own, else 128 plus the signal that
/// ended it, else -1.
pub fn exit_code_of(code: Option<i32>, signal: Option<i32>) -> (exit: i32)
    requires
        code is None && signal is Some ==> signal->0 <= i32::MAX - 128,
    ensures
        exit == match (code, signal) {
            (Some(c), _) => c as int,
            (None, Some(s)) => 128 + s,
            (None, None) => -1,
        },
{
    match code {
        Some(c) => c,
        None => match signal {
            Some(s) => 128 + s,
            None => -1,
        },
    }
}

/// Where the agent listens.
#[derive(Clone, Debug, PartialEq, Eq)]
pub enum ListenSpec {
    /// A vsock port.
    Vsock(u32),
    /// A Unix socket path.
    Unix(String),
    /// A TCP address.
    Tcp(String),
}

/// What a listen specification says.
pub enum ListenModel {
    Vsock(u32),
    Unix(Seq<char>),
    Tcp(Seq<char>),
}

impl View for ListenSpec {
    type V = ListenModel;

    open spec fn view(&self) -> ListenModel {
        match self {
            ListenSpec::Vsock(port) => ListenModel::Vsock(*port),
            ListenSpec::Unix(path) => ListenModel::Unix(path@),
            ListenSpec::Tcp(address) => ListenModel::Tcp(address@),
        }
    }
}

/// The place in a listen specification: a kind, a colon, and the kind's own
/// address.
pub open spec fn listen_spec_of(spec: Seq<char>) -> Option<ListenModel> {
    let at = index_of(spec, ':');
    let kind = spec.subrange(0, at);
    let rest = spec.skip(at + 1);
    if at >= spec.len() {
        None
    } else if kind == "unix"@ {
        Some(ListenModel::Unix(rest))
    } else if kind == "tcp"@ {
        Some(ListenModel::Tcp(rest))
    } else if kind == "vsock"@ {
        match number_value(rest, u32::MAX as nat) {
            Some(port) => Some(ListenModel::Vsock(port as u32)),
            None => None,
        }
    } else {
        None
    }
}

proof fn kinds_differ()
    ensures
        "unix"@ != "tcp"@,
        "unix"@ != "vsock"@,
        "tcp"@ != "vsock"@,
{
    reveal_strlit("unix");
    reveal_strlit("tcp");
    reveal_strlit("vsock");
    assert("unix"@.len() == 4 && "tcp"@.len() == 3 && "vsock"@.len() == 5);
}

/// Parses a listen specification; `None` is a usage error.
pub fn parse_listen_spec(spec: &str) -> (listen: Option<ListenSpec>)
    ensures
        match listen {
            Some(l) => listen_spec_of(spec@) == Some(l@),
            None => listen_spec_of(spec@) is None,
        },
{
    let chars: Vec<char> = chars_of(spec);
    let len: usize = chars.len();
    let at: usize = find_char(&chars, 0, len, ':');
    assert(chars@.subrange(0, len as int) =~= chars@);
    if at == len {
        return None;
    }
    let kind: String = string_of(&chars, 0, at);
    let rest: String = string_of(&chars, at + 1, len);
    assert(chars@.subrange(at + 1, len as int) =~= chars@.skip(at + 1));
    proof {
        kinds_differ();
    }
    if same_text(kind.as_str(), "unix") {
        Some(ListenSpec::Unix(rest))
    } else if same_text(kind.as_str(), "tcp") {
        Some(ListenSpec::Tcp(rest))
    } else if same_text(kind.as_str(), "vsock") {
        match parse_number(&chars, at + 1, len, u32::MAX) {
            Some(port) => Some(ListenSpec::Vsock(port)),
            None => None,
        }
    } else {
        None
    }
}

// ---------------------------------------------------------------------------
// Laws
// ---------------------------------------------------------------------------

proof fn input_of_stdin_frames(stdin: Seq<u8>)
    ensures
        input_of(stdin_frames(stdin) + frame_bytes(Channel::Stdin, Seq::empty())) == stdin,
    decreases stdin.len(),
{
    let eof = frame_bytes(Channel::Stdin, Seq::empty());
    if stdin.len() == 0 {
        assert(stdin_frames(stdin) + eof =~= eof + Seq::empty());
        frames_round_trip(Channel::Stdin, Seq::empty(), Seq::empty());
        assert(stdin =~= Seq::empty());
    } else if stdin.len() <= MAX_FRAME_PAYLOAD {
        frames_round_trip(Channel::Stdin, stdin, eof);
        input_of_stdin_frames(Seq::empty());
        assert(stdin_frames(Seq::empty()) + eof =~= eof);
        assert(stdin + Seq::<u8>::empty() =~= stdin);
    } else {
        let head = stdin.subrange(0, MAX_FRAME_PAYLOAD as int);
        let tail = stdin.skip(MAX_FRAME_PAYLOAD as int);
        input_of_stdin_frames(tail);
        let rest = stdin_frames(tail) + eof;
        assert(stdin_frames(stdin) + eof =~= frame_bytes(Channel::Stdin, head) + rest);
        frames_round_trip(Channel::Stdin, head, rest);
        assert(head + tail =~= stdin);
    }
}

/// What the host sends for an exec, the agent reads: the control payload
/// comes first, and the command's input is what was to be sent.
pub proof fn agent_reads_what_the_host_sends(control: Seq<u8>, stdin: Seq<u8>)
    requires
        control.len() <= MAX_FRAME_PAYLOAD,
    ensures
        front_of(request_bytes(control, stdin)) == (Front::Whole {
            channel: Channel::Control,
            payload: control,
        }),
        input_of(request_bytes(control, stdin).skip(5 + control.len() as int)) == stdin,
{
    let rest = stdin_frames(stdin) + frame_bytes(Channel::Stdin, Seq::empty());
    assert(request_bytes(control, stdin) =~= frame_bytes(Channel::Control, control) + rest);
    frames_round_trip(Channel::Control, control, rest);
    input_of_stdin_frames(stdin);
}

/// A request that reaches the agent intact is carried out as it was made.
pub proof fn agent_carries_out_the_request(
    message: ControlMessage,
    request: ExecRequest,
    command: AgentCommand,
)
    requires
        asks_for(message, request),
        answers_opening(Ok(message), Ok(command)),
    ensures
        command.command_line@ == request.command_line@,
        pair_models(command.env@) == env_pairs(texts(request.env@)),
        command.cwd == request.cwd,
{
}

/// Which variables entries set, told entry by entry: one is split at its first
/// equals sign, so a value may hold more of them and either side may be empty;
/// one without an equals sign sets nothing; and entries in a row set what each
/// sets, in order.
pub proof fn variables_are_split_at_the_first_equals_sign(
    key: Seq<char>,
    value: Seq<char>,
    front: Seq<Seq<char>>,
    back: Seq<Seq<char>>,
)
    ensures
        env_pairs(Seq::empty()) == Seq::<(Seq<char>, Seq<char>)>::empty(),
        !key.contains('=') ==> env_pairs(seq![key + seq!['='] + value]) == seq![(key, value)],
        !key.contains('=') ==> env_pairs(seq![key]) == Seq::<(Seq<char>, Seq<char>)>::empty(),
        env_pairs(front + back) == env_pairs(front) + env_pairs(back),
    decreases back.len(),
{
    let entry = key + seq!['='] + value;
    reveal_with_fuel(env_pairs, 2);
    assert(seq![entry].drop_last() =~= Seq::empty());
    assert(seq![key].drop_last() =~= Seq::empty());
    if !key.contains('=') {
        assert forall|i: int| 0 <= i < key.len() implies key[i] != '=' && entry[i] != '=' by {
            assert(key.contains(key[i]));
            assert(entry[i] == key[i]);
        }
        assert(entry[key.len() as int] == '=');
        index_of_is(entry, '=', key.len() as int);
        index_of_is(key, '=', key.len() as int);
        assert(entry.subrange(0, key.len() as int) =~= key);
        assert(entry.skip(key.len() as int + 1) =~= value);
        assert(env_pairs(seq![entry]) =~= seq![(key, value)]);
    }
    let all = front + back;
    if back.len() == 0 {
        assert(all =~= front);
        assert(env_pairs(front) + env_pairs(back) =~= env_pairs(front));
    } else {
        assert(all.drop_last() =~= front + back.drop_last());
        variables_are_split_at_the_first_equals_sign(key, value, front, back.drop_last());
        assert(env_pairs(all) =~= env_pairs(front) + env_pairs(back));
    }
}

/// What the command is fed, told frame by frame: an input frame feeds its
/// payload and an empty one ends the input; frames of other channels are passed
/// over; and the input also ends where no frame is whole.
pub proof fn input_is_fed_frame_by_frame(channel: Channel, payload: Seq<u8>, rest: Seq<u8>)
    requires
        payload.len() <= 16_777_216,
    ensures
        input_of(frame_bytes(channel, payload) + rest) == (if channel != Channel::Stdin {
            input_of(rest)
        } else if payload.len() == 0 {
            Seq::empty()
        } else {
            payload + input_of(rest)
        }),
        !(front_of(rest) is Whole) ==> input_of(rest) == Seq::<u8>::empty(),
{
    frames_round_trip(channel, payload, rest);
}

/// Where the agent listens: what stands behind `unix:` is a path, behind `tcp:`
/// an address, and behind `vsock:` a port number; anything else is no place.
pub proof fn places_are_read_by_kind(kind: Seq<char>, rest: Seq<char>, spec: Seq<char>)
    ensures
        listen_spec_of("unix"@ + seq![':'] + rest) == Some(ListenModel::Unix(rest)),
        listen_spec_of("tcp"@ + seq![':'] + rest) == Some(ListenModel::Tcp(rest)),
        listen_spec_of("vsock"@ + seq![':'] + rest) == match number_value(rest, 4_294_967_295) {
            Some(port) => Some(ListenModel::Vsock(port as u32)),
            None => None,
        },
        !kind.contains(':') && kind != "unix"@ && kind != "tcp"@ && kind != "vsock"@
            ==> listen_spec_of(kind + seq![':'] + rest) is None,
        !spec.contains(':') ==> listen_spec_of(spec) is None,
{
    reveal_strlit("unix");
    reveal_strlit("tcp");
    reveal_strlit("vsock");
    kinds_differ();
    kind_before_the_colon("unix"@, rest);
    kind_before_the_colon("tcp"@, rest);
    kind_before_the_colon("vsock"@, rest);
    if !kind.contains(':') {
        kind_before_the_colon(kind, rest);
    }
    if !spec.contains(':') {
        assert forall|i: int| 0 <= i < spec.len() implies spec[i] != ':' by {
            assert(spec.contains(spec[i]));
        }
        index_of_is(spec, ':', spec.len() as int);
    }
}

proof fn kind_before_the_colon(kind: Seq<char>, rest: Seq<char>)
    requires
        !kind.contains(':'),
    ensures
        ({
            let whole = kind + seq![':'] + rest;
            &&& index_of(whole, ':') == kind.len()
            &&& whole.subrange(0, kind.len() as int) == kind
            &&& whole.skip(kind.len() as int + 1) == rest
            &&& whole.len() > kind.len()
        }),
{
    let whole = kind + seq![':'] + rest;
    assert forall|i: int| 0 <= i < kind.len() implies whole[i] != ':' by {
        assert(kind.contains(kind[i]));
        assert(whole[i] == kind[i]);
    }
    assert(whole[kind.len() as int] == ':');
    index_of_is(whole, ':', kind.len() as int);
    assert(whole.subrange(0, kind.len() as int) =~= kind);
    assert(whole.skip(kind.len() as int + 1) =~= rest);
}

/// Only an exec request is carried out: any other first message, and one that
/// does not decode, is answered with an error, which gives the reason.
pub proof fn only_exec_requests_are_carried_out(
    decoded: Result<ControlMessage, String>,
    result: Result<AgentCommand, String>,
)
    requires
        answers_opening(decoded, result),
    ensures
        result is Ok <==> (decoded matches Ok(message) && message is Exec),
        decoded matches Err(reason) ==> (result matches Err(message) && message@
            == "invalid exec request: "@ + reason@),
        result matches Ok(command) ==> (decoded matches Ok(ControlMessage::Exec {
            command_line,
            env,
            cwd,
            timeout_ms,
        }) && command.command_line@ == command_line@ && command.cwd == cwd),
{
}

/// Each channel is called by its own name.
pub proof fn channels_are_called_by_name()
    ensures
        channel_name(Channel::Control) == "Control"@,
        channel_name(Channel::Stdin) == "Stdin"@,
        channel_name(Channel::Stdout) == "Stdout"@,
        channel_name(Channel::Stderr) == "Stderr"@,
{
}

/// The exit code is the command's own where it has one; a command that a signal
/// ended has the signal's number above 128; and without either it is -1.
pub proof fn exit_codes_tell_signals_apart(code: Option<i32>, signal: Option<i32>, exit: i32)
    requires
        call_ensures(exit_code_of, (code, signal), exit),
    ensures
        code matches Some(own) ==> exit == own,
        signal matches Some(number) ==> code is None ==> exit - 128 == number,
        code is None && signal is None ==> exit == -1,
{
}

/// While the command runs, exactly the input frames with a payload are written
/// to it, as they are, as long as it takes input; an empty one and the end of
/// the stream finish its input.
pub proof fn input_frames_are_written(frame: Frame, open: bool, step: StdinStep, end: StdinStep)
    requires
        call_ensures(stdin_step, (Ok(frame), open), step),
        exists|error: FrameError| call_ensures(stdin_step, (Err(error), open), end),
    ensures
        end is Finish,
        step is Finish <==> frame.channel == Channel::Stdin && frame.payload@.len() == 0,
        step is Write <==> frame.channel == Channel::Stdin && frame.payload@.len() > 0 && open,
        step matches StdinStep::Write(bytes) ==> bytes@ == frame.payload@,
{
}

} // verus!
