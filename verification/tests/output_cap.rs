//! Captured-output cap: the guest owns the output streams, so collection into
//! host memory must be bounded.

use vz_backend::client::{
    append_capped, build_request, completion, exec_collect, exec_message, on_read_error,
    ExecCompletion, ExecError, ExecOutcome, ExecRequest, MAX_CAPTURED_STREAM,
    STREAM_TRUNCATION_MARKER,
};
use vz_backend::frame::{read_frame, write_frame, Channel, FrameError, MAX_FRAME_PAYLOAD};
use vz_backend::message::ControlMessage;

fn exit(code: i32) -> Result<ControlMessage, String> {
    Ok(ControlMessage::Exit { code })
}

/// The byte stream that a hostile agent would send: `stdout_total` bytes of
/// stdout in `chunk` sized frames, then a control frame.
fn agent_stream(stdout_total: usize, chunk: usize) -> Vec<u8> {
    let mut stream = Vec::new();
    let mut sent = 0;
    while sent < stdout_total {
        let n = chunk.min(stdout_total - sent);
        write_frame(&mut stream, Channel::Stdout, &vec![b'x'; n]).unwrap();
        sent += n;
    }
    write_frame(&mut stream, Channel::Control, b"{\"type\":\"exit\"}").unwrap();
    stream
}

#[test]
fn output_below_the_cap_is_untouched() {
    let stream = agent_stream(1024 * 1024, 64 * 1024);
    let outcome = exec_collect(&stream, exit(0)).expect("exec should complete");
    assert_eq!(outcome.exit_code, 0);
    assert_eq!(outcome.stdout.len(), 1024 * 1024);
    assert!(outcome.stderr.is_empty());
}

#[test]
fn oversized_stdout_is_truncated_with_a_marker_and_exit_still_arrives() {
    let stream = agent_stream(MAX_CAPTURED_STREAM + 2 * 1024 * 1024, 256 * 1024);
    let outcome = exec_collect(&stream, exit(7)).expect("exec must still complete");
    let marker = STREAM_TRUNCATION_MARKER.as_bytes();
    assert_eq!(outcome.exit_code, 7, "exit code must survive truncation");
    assert_eq!(
        outcome.stdout.len(),
        MAX_CAPTURED_STREAM + marker.len(),
        "head kept to the cap plus one marker"
    );
    assert!(outcome.stdout.ends_with(marker));
    let marker_count = outcome.stdout.windows(marker.len()).filter(|w| *w == marker).count();
    assert_eq!(marker_count, 1, "the marker is appended exactly once");
}

#[test]
fn stdout_and_stderr_caps_are_independent() {
    let mut stream = Vec::new();
    // stderr over the cap, stdout small: only stderr is truncated.
    write_frame(&mut stream, Channel::Stdout, b"small stdout").unwrap();
    let mut sent = 0;
    let total = MAX_CAPTURED_STREAM + 1024;
    while sent < total {
        let n = (1024 * 1024).min(total - sent);
        write_frame(&mut stream, Channel::Stderr, &vec![b'e'; n]).unwrap();
        sent += n;
    }
    write_frame(&mut stream, Channel::Control, b"{}").unwrap();

    let outcome = exec_collect(&stream, exit(0)).expect("exec should complete");
    let marker = STREAM_TRUNCATION_MARKER.as_bytes();
    assert_eq!(outcome.stdout, b"small stdout");
    assert_eq!(outcome.stderr.len(), MAX_CAPTURED_STREAM + marker.len());
    assert!(outcome.stderr.ends_with(marker));
}

#[test]
fn landing_exactly_on_the_cap_marks_only_when_data_is_dropped() {
    let mut buf = vec![0u8; MAX_CAPTURED_STREAM - 1];
    append_capped(&mut buf, b"x");
    assert_eq!(buf.len(), MAX_CAPTURED_STREAM);
    append_capped(&mut buf, b"");
    assert_eq!(buf.len(), MAX_CAPTURED_STREAM);
    append_capped(&mut buf, b"y");
    assert!(buf.ends_with(b"\n[output truncated: stream exceeded capture cap]\n"));
    let len = buf.len();
    append_capped(&mut buf, b"more");
    assert_eq!(buf.len(), len);
}

#[test]
fn agent_failures_and_violations_end_the_collection() {
    let control = |stream: &mut Vec<u8>| write_frame(stream, Channel::Control, b"{}").unwrap();
    let mut stream = Vec::new();
    control(&mut stream);
    assert_eq!(
        exec_collect(&stream, Ok(ControlMessage::Error { message: "spawn failed".to_string() })),
        Err(ExecError::Agent("spawn failed".to_string()))
    );
    let request = ExecRequest {
        command_line: "ls".to_string(),
        env: vec!["A=1".to_string()],
        cwd: Some("/".to_string()),
        timeout_ms: Some(5),
    };
    assert_eq!(
        exec_collect(&stream, Ok(exec_message(&request))),
        Err(ExecError::Protocol("guest echoed an exec request".to_string()))
    );
    assert_eq!(
        exec_collect(&stream, Err("EOF while parsing".to_string())),
        Err(ExecError::Protocol("invalid control frame: EOF while parsing".to_string()))
    );

    let mut stdin = Vec::new();
    write_frame(&mut stdin, Channel::Stdin, b"?").unwrap();
    control(&mut stdin);
    assert_eq!(
        exec_collect(&stdin, exit(0)),
        Err(ExecError::Protocol("guest sent a stdin frame to the host".to_string()))
    );
    assert_eq!(
        exec_collect(&[], exit(0)),
        Err(ExecError::Protocol(
            "guest closed the stream before reporting an exit code".to_string()
        ))
    );
    assert_eq!(exec_collect(&[1, 0], exit(0)), Err(ExecError::Frame(FrameError::UnexpectedEof)));
    assert_eq!(
        exec_collect(&[1, 0, 0, 0, 7], exit(0)),
        Err(ExecError::Frame(FrameError::UnknownChannel(7)))
    );
}

#[test]
fn exec_errors_render_their_messages() {
    assert_eq!(
        ExecError::Agent("spawn failed: no such file".to_string()).message(),
        "guest agent error: spawn failed: no such file"
    );
    assert_eq!(
        ExecError::Frame(FrameError::UnexpectedEof).message(),
        "exec transport error: stream ended mid-frame"
    );
    assert_eq!(
        on_read_error(FrameError::Closed).message(),
        "protocol violation from guest: guest closed the stream before reporting an exit code"
    );
}

#[test]
fn interleaved_output_is_collected_per_stream() {
    let mut stream = Vec::new();
    for (channel, payload) in [
        (Channel::Stdout, &b"a"[..]),
        (Channel::Stderr, b"1"),
        (Channel::Stdout, b""),
        (Channel::Stderr, b"2"),
        (Channel::Stdout, b"b"),
        (Channel::Control, b"<exit>"),
        (Channel::Stdout, b"too late"),
    ] {
        write_frame(&mut stream, channel, payload).unwrap();
    }
    let outcome = exec_collect(&stream, exit(4)).unwrap();
    assert_eq!(outcome.stdout, b"ab");
    assert_eq!(outcome.stderr, b"12");
    assert_eq!(outcome.exit_code, 4);
}

#[test]
fn missed_deadline_is_an_outcome() {
    let outcome = ExecOutcome { exit_code: 3, stdout: b"o".to_vec(), stderr: Vec::new() };
    assert_eq!(completion(None), Ok(ExecCompletion::TimedOut));
    assert_eq!(completion(Some(Ok(outcome.clone()))), Ok(ExecCompletion::Completed(outcome)));
    assert_eq!(
        completion(Some(Err(ExecError::Agent("x".to_string())))),
        Err(ExecError::Agent("x".to_string()))
    );
}

#[test]
fn exec_message_carries_the_request() {
    let request = ExecRequest {
        command_line: "echo hi".to_string(),
        env: vec!["FOO=bar".to_string()],
        cwd: Some("/workspace".to_string()),
        timeout_ms: Some(60000),
    };
    assert_eq!(
        exec_message(&request),
        ControlMessage::Exec {
            command_line: "echo hi".to_string(),
            env: vec!["FOO=bar".to_string()],
            cwd: Some("/workspace".to_string()),
            timeout_ms: Some(60000),
        }
    );
}

#[test]
fn request_bytes_chunk_stdin_and_end_it() {
    let stdin = vec![7u8; MAX_FRAME_PAYLOAD + 3];
    let bytes = build_request(b"{}", &stdin).unwrap();
    let mut at = 0;
    let first = read_frame(&bytes, &mut at).unwrap();
    assert_eq!((first.channel, first.payload.as_slice()), (Channel::Control, &b"{}"[..]));
    assert_eq!(read_frame(&bytes, &mut at).unwrap().payload.len(), MAX_FRAME_PAYLOAD);
    assert_eq!(read_frame(&bytes, &mut at).unwrap().payload, [7, 7, 7]);
    let last = read_frame(&bytes, &mut at).unwrap();
    assert_eq!((last.channel, last.payload.len()), (Channel::Stdin, 0));
    assert_eq!(at, bytes.len());

    let none = build_request(b"{}", b"").unwrap();
    assert_eq!(none, [2, 0, 0, 0, 0, b'{', b'}', 0, 0, 0, 0, 1]);
    let oversized = vec![0u8; MAX_FRAME_PAYLOAD + 1];
    assert_eq!(
        build_request(&oversized, b""),
        Err(ExecError::Frame(FrameError::Oversized { declared: 16777217 }))
    );
}
