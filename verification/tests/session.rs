//! One-shot sessions: the orchestrator drives a fake machine whose agent is
//! served by the library's own guest side, in memory.

use std::cell::RefCell;
use std::rc::Rc;

use vz_backend::agent::{serve_connection, AgentJob};
use vz_backend::client::{
    build_request, exec_collect, exec_message, ExecError, ExecOutcome, ExecRequest,
};
use vz_backend::frame::{write_frame, Channel};
use vz_backend::message::ControlMessage;
use vz_backend::policy::{Containment, Experimental, Policy, Process, VzOptions};
use vz_backend::runner::{AgentStream, VmDriver, VmError, VmHandle, VmState};
use vz_backend::session::{conclude, plan_session, run_one_shot, SessionError, SessionOutcome};
use vz_backend::validate::VzPolicyError;

fn policy(process: Process) -> Policy {
    Policy { containment: Some(Containment::Vz), process: Some(process), ..Policy::default() }
}

fn command(command_line: &str) -> Process {
    Process { command_line: Some(command_line.to_string()), ..Process::default() }
}

#[derive(Clone, Default)]
struct Probe {
    calls: Rc<RefCell<Vec<&'static str>>>,
}

impl Probe {
    fn calls(&self) -> Vec<&'static str> {
        self.calls.borrow().clone()
    }
    fn push(&self, call: &'static str) {
        self.calls.borrow_mut().push(call);
    }
}

struct FakeAgentDriver {
    probe: Probe,
    fail_boot: bool,
}

impl VmDriver for FakeAgentDriver {
    type Reader = ();
    type Writer = ();

    fn start(&mut self, boot_timeout_ms: u64) -> Result<(), VmError> {
        assert_eq!(boot_timeout_ms, 30000);
        self.probe.push("start");
        if self.fail_boot {
            Err(VmError::Start("kernel image not found".to_string()))
        } else {
            Ok(())
        }
    }

    fn stop(&mut self) -> Result<(), VmError> {
        self.probe.push("stop");
        Ok(())
    }

    fn open_agent_stream(&mut self, port: u32, timeout_ms: u64) -> Result<AgentStream<(), ()>, VmError> {
        assert_eq!((port, timeout_ms), (28024, 30000));
        self.probe.push("connect");
        Ok(AgentStream { reader: (), writer: () })
    }
}

/// Carries a request over to the agent's side and the agent's answer back.
fn over_the_wire(
    request: ExecRequest,
    shell: impl Fn(&AgentJob) -> ExecOutcome,
) -> Option<Result<ExecOutcome, ExecError>> {
    let message = exec_message(&request);
    let sent = build_request(b"<exec>", b"").expect("request frames");
    let job = match serve_connection(&sent, Ok(message)) {
        Ok(job) => job,
        Err(message) => panic!("agent refused: {message}"),
    };
    let ended = shell(&job);
    let mut answer = Vec::new();
    write_frame(&mut answer, Channel::Stdout, &ended.stdout).unwrap();
    write_frame(&mut answer, Channel::Stderr, &ended.stderr).unwrap();
    write_frame(&mut answer, Channel::Control, b"<exit>").unwrap();
    Some(exec_collect(&answer, Ok(ControlMessage::Exit { code: ended.exit_code })))
}

fn run(
    policy: &Policy,
    experimental: bool,
    probe: Probe,
    fail_boot: bool,
    shell: impl Fn(&AgentJob) -> ExecOutcome,
) -> Result<SessionOutcome, SessionError> {
    run_one_shot(
        policy,
        experimental,
        "/guest-images",
        move || Ok(FakeAgentDriver { probe, fail_boot }),
        move |handle: &VmHandle<FakeAgentDriver>, _stream: AgentStream<(), ()>, request| {
            assert_eq!(handle.state(), VmState::Running, "the exec runs in a running machine");
            over_the_wire(request, shell)
        },
    )
    .0
}

fn nothing(_: &AgentJob) -> ExecOutcome {
    ExecOutcome { exit_code: 0, stdout: Vec::new(), stderr: Vec::new() }
}

#[test]
fn one_shot_session_execs_through_the_real_agent() {
    let probe = Probe::default();
    let outcome = run(
        &policy(command("echo hi; echo err 1>&2; exit 3")),
        true,
        probe.clone(),
        false,
        |job| {
            assert_eq!(job.command.command_line, "echo hi; echo err 1>&2; exit 3");
            ExecOutcome { exit_code: 3, stdout: b"hi\n".to_vec(), stderr: b"err\n".to_vec() }
        },
    )
    .expect("session should complete");
    match outcome {
        SessionOutcome::Completed(outcome) => {
            assert_eq!(outcome.exit_code, 3);
            assert_eq!(outcome.stdout, b"hi\n");
            assert_eq!(outcome.stderr, b"err\n");
        }
        SessionOutcome::TimedOut => panic!("session must not time out"),
    }
    // The final stop is teardown of the still-running machine.
    assert_eq!(probe.calls(), vec!["start", "connect", "stop"]);
}

#[test]
fn env_and_cwd_reach_the_guest_command() {
    let outcome = run(
        &policy(Process {
            command_line: Some("echo \"$MXC_SESSION_MARKER\"; pwd".to_string()),
            env: Some(vec!["MXC_SESSION_MARKER=through-the-session".to_string()]),
            cwd: Some("/tmp".to_string()),
            timeout: None,
        }),
        true,
        Probe::default(),
        false,
        |job| {
            let (key, value) = &job.command.env[0];
            assert_eq!(key, "MXC_SESSION_MARKER");
            let cwd = job.command.cwd.clone().expect("cwd");
            ExecOutcome {
                exit_code: 0,
                stdout: format!("{value}\n{cwd}\n").into_bytes(),
                stderr: Vec::new(),
            }
        },
    )
    .expect("session should complete");
    let SessionOutcome::Completed(outcome) = outcome else {
        panic!("session must not time out");
    };
    assert_eq!(outcome.exit_code, 0);
    assert!(outcome.stdout.starts_with(b"through-the-session\n/tmp"));
}

#[test]
fn exec_timeout_force_stops_the_vm_and_surfaces_timed_out() {
    let probe = Probe::default();
    let theirs = probe.clone();
    let (result, driver) = run_one_shot(
        &policy(Process { timeout: Some(300), ..command("sleep 30") }),
        true,
        "/guest-images",
        move || Ok(FakeAgentDriver { probe: theirs, fail_boot: false }),
        |_: &VmHandle<FakeAgentDriver>, _stream: AgentStream<(), ()>, request: ExecRequest| {
            assert_eq!(request.timeout_ms, Some(300));
            None
        },
    );
    let outcome = result.expect("a timed-out exec is an outcome, not an error");
    assert_eq!(outcome, SessionOutcome::TimedOut);
    assert!(driver.is_some(), "the driver comes back torn down");
    // Exactly one stop: the timeout's force-stop.
    assert_eq!(probe.calls(), vec!["start", "connect", "stop"]);
}

#[test]
fn validation_failure_short_circuits_before_any_vm_exists() {
    let factory_ran = Rc::new(RefCell::new(false));
    let flag = Rc::clone(&factory_ran);
    let (result, driver) = run_one_shot(
        &policy(command("true")),
        false,
        "/guest-images",
        move || {
            *flag.borrow_mut() = true;
            Ok(FakeAgentDriver { probe: Probe::default(), fail_boot: false })
        },
        |_: &VmHandle<FakeAgentDriver>, _stream: AgentStream<(), ()>, _request: ExecRequest| {
            panic!("nothing may run")
        },
    );
    let error = result.expect_err("validation must fail");
    assert!(driver.is_none());
    match error {
        SessionError::Validation(errors) => {
            assert!(errors.contains(&VzPolicyError::ExperimentalRequired));
        }
        other => panic!("expected SessionError::Validation, got {other:?}"),
    }
    assert!(!*factory_ran.borrow(), "no machine may be created for an invalid policy");
}

#[test]
fn missing_command_line_is_a_translation_error() {
    let probe = Probe::default();
    let error = run(&policy(Process::default()), true, probe.clone(), false, nothing)
        .expect_err("a policy with nothing to run must fail");
    match error {
        SessionError::Translation(reason) => {
            assert!(reason.contains("commandLine"), "got: {reason}");
        }
        other => panic!("expected SessionError::Translation, got {other:?}"),
    }
    assert!(probe.calls().is_empty(), "translation happens before the machine exists");
}

#[test]
fn connect_before_boot_is_rejected() {
    let probe = Probe::default();
    let mut handle =
        VmHandle::spawn(Ok(FakeAgentDriver { probe: probe.clone(), fail_boot: false }))
            .expect("spawn should succeed");
    let error = handle.connect(28024, 1000).expect_err("connect before boot must fail");
    assert_eq!(error, VmError::NotRunning);
    assert!(probe.calls().is_empty(), "the driver must never be asked to connect");
}

#[test]
fn boot_failure_surfaces_as_vm_error() {
    let probe = Probe::default();
    let error = run(&policy(command("true")), true, probe.clone(), true, nothing)
        .expect_err("boot failure must surface");
    match error {
        SessionError::Vm(VmError::Start(reason)) => {
            assert_eq!(reason, "kernel image not found");
        }
        other => panic!("expected SessionError::Vm(Start), got {other:?}"),
    }
    assert_eq!(probe.calls(), vec!["start"], "no connect, no stop after a failed boot");
}

#[test]
fn refused_policies_may_ask_for_any_memory() {
    let mut huge = policy(command("true"));
    huge.experimental = Some(Experimental {
        vz: Some(VzOptions { memory_mb: u64::MAX, ..VzOptions::default() }),
    });
    let probe = Probe::default();
    let error = run(&huge, false, probe.clone(), false, nothing).expect_err("no experimental flag");
    assert!(matches!(error, SessionError::Validation(_)));
    assert!(probe.calls().is_empty());
}

#[test]
fn plans_hold_the_request_and_the_blueprint() {
    let plan = plan_session(&policy(command("true")), true, "/guest-images").unwrap();
    assert_eq!(plan.request.command_line, "true");
    assert_eq!(plan.spec.kernel_path, "/guest-images/vmlinux");
}

#[test]
fn session_errors_render_their_messages() {
    let errors = vec![VzPolicyError::ExperimentalRequired, VzPolicyError::InvalidCpuCount(0)];
    assert_eq!(
        SessionError::Validation(errors).message(),
        "policy validation failed (2 error(s)):\n  - containment \"vz\" requires the experimental flag to be enabled\n  - experimental.vz.cpuCount must be at least 1 (got 0)"
    );
    assert_eq!(
        SessionError::Vm(VmError::NotRunning).message(),
        "VM lifecycle failure: VM is not running"
    );
    assert_eq!(
        conclude(Err(ExecError::Agent("x".to_string()))).unwrap_err().message(),
        "exec failure: guest agent error: x"
    );
    assert_eq!(
        SessionError::Translation("nothing".to_string()).message(),
        "policy translation failed: nothing"
    );
}
