//! Timeout semantics: the host enforces `process.timeout` by force-stopping
//! the machine, which no cooperation in the guest can outrun. The library's
//! own guest side serves the exec, in memory.

use std::cell::Cell;

use vz_backend::agent::serve_connection;
use vz_backend::client::{
    build_request, exec_collect, exec_collect_with_timeout, exec_message, ExecCompletion,
    ExecError, ExecOutcome, ExecRequest,
};
use vz_backend::frame::{write_frame, Channel};
use vz_backend::message::ControlMessage;

fn request(command_line: &str, timeout_ms: Option<u64>) -> ExecRequest {
    ExecRequest { command_line: command_line.to_string(), env: Vec::new(), cwd: None, timeout_ms }
}

/// What the exec gives once the agent has run the command, which prints `stdout`.
fn served(request: &ExecRequest, stdout: &[u8]) -> Result<ExecOutcome, ExecError> {
    let sent = build_request(b"<exec>", b"").expect("request frames");
    let job = serve_connection(&sent, Ok(exec_message(request))).expect("agent accepts");
    assert_eq!(job.command.command_line, request.command_line);
    let mut answer = Vec::new();
    write_frame(&mut answer, Channel::Stdout, stdout).unwrap();
    write_frame(&mut answer, Channel::Control, b"<exit>").unwrap();
    exec_collect(&answer, Ok(ControlMessage::Exit { code: 0 }))
}

/// Concludes an exec, and counts the force-stops.
fn run(
    ended: Option<Result<ExecOutcome, ExecError>>,
) -> (Result<ExecCompletion, ExecError>, u32) {
    let stops = Cell::new(0);
    let result = exec_collect_with_timeout(ended, || stops.set(stops.get() + 1));
    (result, stops.get())
}

#[test]
fn fast_command_completes_within_timeout() {
    let (result, stops) = run(Some(served(&request("echo done", Some(30000)), b"done\n")));
    match result.expect("exec should succeed") {
        ExecCompletion::Completed(outcome) => {
            assert_eq!(outcome.exit_code, 0);
            assert_eq!(outcome.stdout, b"done\n");
        }
        ExecCompletion::TimedOut => panic!("fast command must not time out"),
    }
    assert_eq!(stops, 0, "force-stop must not fire on a completed exec");
}

#[test]
fn no_timeout_means_wait_for_completion() {
    let (result, stops) = run(Some(served(&request("sleep 0.2; echo late", None), b"late\n")));
    match result.expect("exec should succeed") {
        ExecCompletion::Completed(outcome) => assert_eq!(outcome.stdout, b"late\n"),
        ExecCompletion::TimedOut => panic!("no timeout configured"),
    }
    assert_eq!(stops, 0);
}

#[test]
fn overrunning_command_is_force_stopped() {
    let (result, stops) = run(None);
    match result.expect("timeout is an outcome, not an error") {
        ExecCompletion::TimedOut => {}
        ExecCompletion::Completed(outcome) => panic!("sleep 30 completed?! {outcome:?}"),
    }
    assert_eq!(stops, 1, "the force-stop hook must fire on timeout");
}

#[test]
fn exec_errors_are_no_reason_to_force_stop() {
    let (result, stops) = run(Some(Err(ExecError::Agent("x".to_string()))));
    assert_eq!(result, Err(ExecError::Agent("x".to_string())));
    assert_eq!(stops, 0);
}
