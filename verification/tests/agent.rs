//! The guest side of an exec.

use vz_backend::agent::{
    check_first, check_request, exit_code_of, parse_listen_spec, serve_connection, stdin_step,
    ListenSpec, StdinStep,
};
use vz_backend::client::{build_request, exec_collect, exec_message, ExecError, ExecRequest};
use vz_backend::frame::{write_frame, Channel, Frame, FrameError};
use vz_backend::message::ControlMessage;

fn request(command_line: &str) -> ExecRequest {
    ExecRequest {
        command_line: command_line.to_string(),
        env: Vec::new(),
        cwd: None,
        timeout_ms: None,
    }
}

fn frame(channel: Channel, payload: &[u8]) -> Frame {
    Frame { channel, payload: payload.to_vec() }
}

#[test]
fn exit_codes_propagate() {
    assert_eq!(exit_code_of(Some(7), None), 7);
    let mut answer = Vec::new();
    write_frame(&mut answer, Channel::Control, b"<exit>").unwrap();
    let outcome = exec_collect(&answer, Ok(ControlMessage::Exit { code: 7 })).unwrap();
    assert_eq!(outcome.exit_code, 7);
}

#[test]
fn stdout_and_stderr_stay_separated() {
    let mut answer = Vec::new();
    write_frame(&mut answer, Channel::Stdout, b"out\n").unwrap();
    write_frame(&mut answer, Channel::Stderr, b"err\n").unwrap();
    write_frame(&mut answer, Channel::Control, b"<exit>").unwrap();
    let outcome = exec_collect(&answer, Ok(ControlMessage::Exit { code: 0 })).unwrap();
    assert_eq!(outcome.stdout, b"out\n");
    assert_eq!(outcome.stderr, b"err\n");
}

#[test]
fn stdin_reaches_the_child() {
    let sent = build_request(b"<exec>", b"fed through the frames").unwrap();
    let job = serve_connection(&sent, Ok(exec_message(&request("cat")))).expect("a job");
    assert_eq!(job.command.command_line, "cat");
    assert_eq!(job.stdin, b"fed through the frames");
}

#[test]
fn env_entries_are_passed_through() {
    let mut req = request("echo \"$MXC_TEST_MARKER\"");
    req.env = vec![
        "MXC_TEST_MARKER=vz-agent-was-here".to_string(),
        "no separator".to_string(),
        "A=b=c".to_string(),
        "=x".to_string(),
    ];
    let sent = build_request(b"<exec>", b"").unwrap();
    let job = serve_connection(&sent, Ok(exec_message(&req))).expect("a job");
    assert_eq!(
        job.command.env,
        vec![
            ("MXC_TEST_MARKER".to_string(), "vz-agent-was-here".to_string()),
            ("A".to_string(), "b=c".to_string()),
            (String::new(), "x".to_string()),
        ]
    );
}

#[test]
fn cwd_is_honored() {
    let mut req = request("pwd");
    req.cwd = Some("/tmp".to_string());
    let sent = build_request(b"<exec>", b"").unwrap();
    let job = serve_connection(&sent, Ok(exec_message(&req))).expect("a job");
    assert_eq!(job.command.cwd.as_deref(), Some("/tmp"));
}

#[test]
fn spawn_failure_surfaces_as_agent_error() {
    let mut answer = Vec::new();
    write_frame(&mut answer, Channel::Control, b"<error>").unwrap();
    let reported = Ok(ControlMessage::Error { message: "spawn failed: not found".to_string() });
    match exec_collect(&answer, reported) {
        Err(ExecError::Agent(message)) => assert!(!message.is_empty()),
        other => panic!("expected ExecError::Agent, got {other:?}"),
    }
}

#[test]
fn large_output_crosses_multiple_frames() {
    let mut answer = Vec::new();
    for _ in 0..48 {
        write_frame(&mut answer, Channel::Stdout, &vec![b'a'; 64 * 1024]).unwrap();
    }
    write_frame(&mut answer, Channel::Control, b"<exit>").unwrap();
    let outcome = exec_collect(&answer, Ok(ControlMessage::Exit { code: 0 })).unwrap();
    assert_eq!(outcome.stdout.len(), 3 * 1024 * 1024);
    assert!(outcome.stdout.iter().all(|&b| b == b'a'));
}

#[test]
fn signal_death_maps_to_128_plus_signal() {
    assert_eq!(exit_code_of(None, Some(9)), 137, "SIGKILL should surface as 128+9");
    assert_eq!(exit_code_of(None, None), -1);
}

#[test]
fn bad_openings_are_answered_with_a_reason() {
    assert_eq!(
        check_first(Err(FrameError::Closed)),
        Err("reading exec request: stream closed".to_string())
    );
    assert_eq!(
        check_first(Ok(frame(Channel::Stdin, b"x"))),
        Err("expected a control frame first, got Stdin".to_string())
    );
    assert_eq!(check_first(Ok(frame(Channel::Control, b"{}"))), Ok(b"{}".to_vec()));
    assert_eq!(
        check_request(Err("missing field".to_string())),
        Err("invalid exec request: missing field".to_string())
    );
    assert_eq!(
        check_request(Ok(ControlMessage::Exit { code: 0 })),
        Err("expected an exec request as the first control message".to_string())
    );
    assert_eq!(
        serve_connection(&[1, 0], Ok(exec_message(&request("true")))),
        Err("reading exec request: stream ended mid-frame".to_string())
    );
    let mut output_first = Vec::new();
    write_frame(&mut output_first, Channel::Stdout, b"x").unwrap();
    assert_eq!(
        serve_connection(&output_first, Ok(exec_message(&request("true")))),
        Err("expected a control frame first, got Stdout".to_string())
    );
}

#[test]
fn input_ends_at_the_empty_frame_or_the_end_of_the_stream() {
    assert_eq!(stdin_step(Ok(frame(Channel::Stdin, b"ab")), true), StdinStep::Write(b"ab".to_vec()));
    assert_eq!(stdin_step(Ok(frame(Channel::Stdin, b"ab")), false), StdinStep::Skip);
    assert_eq!(stdin_step(Ok(frame(Channel::Stdin, b"")), true), StdinStep::Finish);
    assert_eq!(stdin_step(Ok(frame(Channel::Control, b"?")), true), StdinStep::Skip);
    assert_eq!(stdin_step(Err(FrameError::Closed), true), StdinStep::Finish);

    let mut stream = Vec::new();
    write_frame(&mut stream, Channel::Control, b"<exec>").unwrap();
    write_frame(&mut stream, Channel::Stdin, b"one ").unwrap();
    write_frame(&mut stream, Channel::Stdout, b"tolerated").unwrap();
    write_frame(&mut stream, Channel::Stdin, b"two").unwrap();
    let job = serve_connection(&stream, Ok(exec_message(&request("cat")))).unwrap();
    assert_eq!(job.stdin, b"one two");
    write_frame(&mut stream, Channel::Stdin, b"").unwrap();
    write_frame(&mut stream, Channel::Stdin, b"late").unwrap();
    let job = serve_connection(&stream, Ok(exec_message(&request("cat")))).unwrap();
    assert_eq!(job.stdin, b"one two");
}

#[test]
fn listen_specs_parse() {
    assert_eq!(parse_listen_spec("vsock:28024"), Some(ListenSpec::Vsock(28024)));
    assert_eq!(parse_listen_spec("vsock:4294967295"), Some(ListenSpec::Vsock(u32::MAX)));
    assert_eq!(parse_listen_spec("vsock:4294967296"), None);
    assert_eq!(parse_listen_spec("vsock:x"), None);
    assert_eq!(parse_listen_spec("unix:/run/agent"), Some(ListenSpec::Unix("/run/agent".to_string())));
    assert_eq!(
        parse_listen_spec("tcp:127.0.0.1:7777"),
        Some(ListenSpec::Tcp("127.0.0.1:7777".to_string()))
    );
    assert_eq!(parse_listen_spec("pipe:x"), None);
    assert_eq!(parse_listen_spec("tcp"), None);
}
